//! How the driver's structures lie in memory.
//!
//! Each structure is a run of words in the byte order of the machine. Where a structure has a
//! gap between two words, the gap is written as zero. For each structure this module gives its
//! size, its bytes, a way to put them at the end of a buffer and a way to read them back.
use crate::sys::{
    BinderBufferFlags, BinderBufferObject, BinderExtendedError, BinderFdArrayObject,
    BinderFdObject, BinderFdObjectData, BinderFrozenStateInfo, BinderHandleCookie,
    BinderObjectHeader, BinderPtrCookie, BinderTransactionData, BinderTransactionDataPtrs,
    BinderTransactionDataSecCtx, BinderType, BinderVersion, BinderWriteRead, BinderfsDevice,
    FlatBinderFlags, FlatBinderObject, FlatBinderObjectData, TransactionFlags, TransactionTarget,
};
use crate::wire::{get_u32, get_u64, put_bytes, put_u32, put_u64, to_signed, to_unsigned};
use vstd::prelude::*;

verus! {

use crate::wire::{
    ne32, ne32_facts, ne64, ne64_facts, signed, twos_complement, u32_at, u32_at_bytes, u64_at,
    u64_at_bytes, unsigned,
};

impl FlatBinderObject {
    /// How many bytes the structure takes.
    pub const SIZE: usize = 24;

    /// The bytes of the structure in memory.
    pub open spec fn bytes(self) -> Seq<u8> {
        ne32(self.hdr.type_.0) + ne32(self.flags.0) + ne64(self.data.word) + ne64(self.cookie)
    }

    /// The structure that a string of bytes stands for.
    pub open spec fn decoded(s: Seq<u8>) -> Self {
        FlatBinderObject {
            hdr: BinderObjectHeader { type_: BinderType(u32_at(s, 0)) },
            flags: FlatBinderFlags(u32_at(s, 4)),
            data: FlatBinderObjectData { word: u64_at(s, 8) },
            cookie: u64_at(s, 16),
        }
    }

    /// Puts the bytes of the structure at the end of `out`.
    pub fn put(&self, out: &mut Vec<u8>)
        ensures
            final(out)@ == old(out)@ + self.bytes(),
    {
        put_u32(out, self.hdr.type_.0);
        put_u32(out, self.flags.0);
        put_u64(out, self.data.word);
        put_u64(out, self.cookie);
        assert(out@ =~= old(out)@ + self.bytes());
    }

    /// Reads the structure whose bytes start at `at`.
    pub fn read(s: &[u8], at: usize) -> (r: Self)
        requires
            at + Self::SIZE <= s@.len(),
        ensures
            r == Self::decoded(s@.subrange(at as int, at + Self::SIZE)),
    {
        proof {
            let t = s@.subrange(at as int, at + 24);
            assert(s.len() <= usize::MAX);
            assert(t.subrange(0, 4) =~= s@.subrange(at as int, at + 4));
            assert(t.subrange(4, 8) =~= s@.subrange(at + 4, at + 8));
            assert(t.subrange(8, 16) =~= s@.subrange(at + 8, at + 16));
            assert(t.subrange(16, 24) =~= s@.subrange(at + 16, at + 24));
        }
        FlatBinderObject {
            hdr: BinderObjectHeader { type_: BinderType(get_u32(s, at)) },
            flags: FlatBinderFlags(get_u32(s, at + 4)),
            data: FlatBinderObjectData { word: get_u64(s, at + 8) },
            cookie: get_u64(s, at + 16),
        }
    }

    /// Decoding the bytes of the structure gives it back.
    pub proof fn decode_encoded(self)
        ensures
            self.bytes().len() == Self::SIZE,
            Self::decoded(self.bytes()) == self,
    {
        broadcast use ne32_facts, ne64_facts;

        let b = self.bytes();
        assert(b.subrange(0, 4) =~= ne32(self.hdr.type_.0));
        assert(b.subrange(4, 8) =~= ne32(self.flags.0));
        assert(b.subrange(8, 16) =~= ne64(self.data.word));
        assert(b.subrange(16, 24) =~= ne64(self.cookie));
    }

    /// Encoding what a string of bytes stands for gives the string back.
    pub proof fn encode_decoded(s: Seq<u8>)
        requires
            s.len() == Self::SIZE,
        ensures
            Self::decoded(s).bytes() == s,
    {
        broadcast use ne32_facts, ne64_facts;

        u32_at_bytes(s, 0);
        u32_at_bytes(s, 4);
        u64_at_bytes(s, 8);
        u64_at_bytes(s, 16);
        assert(Self::decoded(s).bytes() =~= s);
    }
}

impl BinderFdObject {
    /// How many bytes the structure takes.
    pub const SIZE: usize = 24;

    /// The bytes of the structure in memory.
    pub open spec fn bytes(self) -> Seq<u8> {
        ne32(self.hdr.type_.0) + ne32(self.pad_flags) + ne64(self.data.word) + ne64(self.cookie)
    }

    /// The structure that a string of bytes stands for.
    pub open spec fn decoded(s: Seq<u8>) -> Self {
        BinderFdObject {
            hdr: BinderObjectHeader { type_: BinderType(u32_at(s, 0)) },
            pad_flags: u32_at(s, 4),
            data: BinderFdObjectData { word: u64_at(s, 8) },
            cookie: u64_at(s, 16),
        }
    }

    /// Puts the bytes of the structure at the end of `out`.
    pub fn put(&self, out: &mut Vec<u8>)
        ensures
            final(out)@ == old(out)@ + self.bytes(),
    {
        put_u32(out, self.hdr.type_.0);
        put_u32(out, self.pad_flags);
        put_u64(out, self.data.word);
        put_u64(out, self.cookie);
        assert(out@ =~= old(out)@ + self.bytes());
    }

    /// Reads the structure whose bytes start at `at`.
    pub fn read(s: &[u8], at: usize) -> (r: Self)
        requires
            at + Self::SIZE <= s@.len(),
        ensures
            r == Self::decoded(s@.subrange(at as int, at + Self::SIZE)),
    {
        proof {
            let t = s@.subrange(at as int, at + 24);
            assert(s.len() <= usize::MAX);
            assert(t.subrange(0, 4) =~= s@.subrange(at as int, at + 4));
            assert(t.subrange(4, 8) =~= s@.subrange(at + 4, at + 8));
            assert(t.subrange(8, 16) =~= s@.subrange(at + 8, at + 16));
            assert(t.subrange(16, 24) =~= s@.subrange(at + 16, at + 24));
        }
        BinderFdObject {
            hdr: BinderObjectHeader { type_: BinderType(get_u32(s, at)) },
            pad_flags: get_u32(s, at + 4),
            data: BinderFdObjectData { word: get_u64(s, at + 8) },
            cookie: get_u64(s, at + 16),
        }
    }

    /// Decoding the bytes of the structure gives it back.
    pub proof fn decode_encoded(self)
        ensures
            self.bytes().len() == Self::SIZE,
            Self::decoded(self.bytes()) == self,
    {
        broadcast use ne32_facts, ne64_facts;

        let b = self.bytes();
        assert(b.subrange(0, 4) =~= ne32(self.hdr.type_.0));
        assert(b.subrange(4, 8) =~= ne32(self.pad_flags));
        assert(b.subrange(8, 16) =~= ne64(self.data.word));
        assert(b.subrange(16, 24) =~= ne64(self.cookie));
    }

    /// Encoding what a string of bytes stands for gives the string back.
    pub proof fn encode_decoded(s: Seq<u8>)
        requires
            s.len() == Self::SIZE,
        ensures
            Self::decoded(s).bytes() == s,
    {
        broadcast use ne32_facts, ne64_facts;

        u32_at_bytes(s, 0);
        u32_at_bytes(s, 4);
        u64_at_bytes(s, 8);
        u64_at_bytes(s, 16);
        assert(Self::decoded(s).bytes() =~= s);
    }
}

impl BinderBufferObject {
    /// How many bytes the structure takes.
    pub const SIZE: usize = 40;

    /// The bytes of the structure in memory.
    pub open spec fn bytes(self) -> Seq<u8> {
        ne32(self.hdr.type_.0) + ne32(self.flags.0) + ne64(self.buffer) + ne64(self.length)
            + ne64(self.parent) + ne64(self.parent_offset)
    }

    /// The structure that a string of bytes stands for.
    pub open spec fn decoded(s: Seq<u8>) -> Self {
        BinderBufferObject {
            hdr: BinderObjectHeader { type_: BinderType(u32_at(s, 0)) },
            flags: BinderBufferFlags(u32_at(s, 4)),
            buffer: u64_at(s, 8),
            length: u64_at(s, 16),
            parent: u64_at(s, 24),
            parent_offset: u64_at(s, 32),
        }
    }

    /// Puts the bytes of the structure at the end of `out`.
    pub fn put(&self, out: &mut Vec<u8>)
        ensures
            final(out)@ == old(out)@ + self.bytes(),
    {
        put_u32(out, self.hdr.type_.0);
        put_u32(out, self.flags.0);
        put_u64(out, self.buffer);
        put_u64(out, self.length);
        put_u64(out, self.parent);
        put_u64(out, self.parent_offset);
        assert(out@ =~= old(out)@ + self.bytes());
    }

    /// Reads the structure whose bytes start at `at`.
    pub fn read(s: &[u8], at: usize) -> (r: Self)
        requires
            at + Self::SIZE <= s@.len(),
        ensures
            r == Self::decoded(s@.subrange(at as int, at + Self::SIZE)),
    {
        proof {
            let t = s@.subrange(at as int, at + 40);
            assert(s.len() <= usize::MAX);
            assert(t.subrange(0, 4) =~= s@.subrange(at as int, at + 4));
            assert(t.subrange(4, 8) =~= s@.subrange(at + 4, at + 8));
            assert(t.subrange(8, 16) =~= s@.subrange(at + 8, at + 16));
            assert(t.subrange(16, 24) =~= s@.subrange(at + 16, at + 24));
            assert(t.subrange(24, 32) =~= s@.subrange(at + 24, at + 32));
            assert(t.subrange(32, 40) =~= s@.subrange(at + 32, at + 40));
        }
        BinderBufferObject {
            hdr: BinderObjectHeader { type_: BinderType(get_u32(s, at)) },
            flags: BinderBufferFlags(get_u32(s, at + 4)),
            buffer: get_u64(s, at + 8),
            length: get_u64(s, at + 16),
            parent: get_u64(s, at + 24),
            parent_offset: get_u64(s, at + 32),
        }
    }

    /// Decoding the bytes of the structure gives it back.
    pub proof fn decode_encoded(self)
        ensures
            self.bytes().len() == Self::SIZE,
            Self::decoded(self.bytes()) == self,
    {
        broadcast use ne32_facts, ne64_facts;

        let b = self.bytes();
        assert(b.subrange(0, 4) =~= ne32(self.hdr.type_.0));
        assert(b.subrange(4, 8) =~= ne32(self.flags.0));
        assert(b.subrange(8, 16) =~= ne64(self.buffer));
        assert(b.subrange(16, 24) =~= ne64(self.length));
        assert(b.subrange(24, 32) =~= ne64(self.parent));
        assert(b.subrange(32, 40) =~= ne64(self.parent_offset));
    }

    /// Encoding what a string of bytes stands for gives the string back.
    pub proof fn encode_decoded(s: Seq<u8>)
        requires
            s.len() == Self::SIZE,
        ensures
            Self::decoded(s).bytes() == s,
    {
        broadcast use ne32_facts, ne64_facts;

        u32_at_bytes(s, 0);
        u32_at_bytes(s, 4);
        u64_at_bytes(s, 8);
        u64_at_bytes(s, 16);
        u64_at_bytes(s, 24);
        u64_at_bytes(s, 32);
        assert(Self::decoded(s).bytes() =~= s);
    }
}

impl BinderFdArrayObject {
    /// How many bytes the structure takes.
    pub const SIZE: usize = 32;

    /// The bytes of the structure in memory.
    pub open spec fn bytes(self) -> Seq<u8> {
        ne32(self.hdr.type_.0) + ne32(self._pad) + ne64(self.num_fds) + ne64(self.parent)
            + ne64(self.parent_offset)
    }

    /// The structure that a string of bytes stands for.
    pub open spec fn decoded(s: Seq<u8>) -> Self {
        BinderFdArrayObject {
            hdr: BinderObjectHeader { type_: BinderType(u32_at(s, 0)) },
            _pad: u32_at(s, 4),
            num_fds: u64_at(s, 8),
            parent: u64_at(s, 16),
            parent_offset: u64_at(s, 24),
        }
    }

    /// Puts the bytes of the structure at the end of `out`.
    pub fn put(&self, out: &mut Vec<u8>)
        ensures
            final(out)@ == old(out)@ + self.bytes(),
    {
        put_u32(out, self.hdr.type_.0);
        put_u32(out, self._pad);
        put_u64(out, self.num_fds);
        put_u64(out, self.parent);
        put_u64(out, self.parent_offset);
        assert(out@ =~= old(out)@ + self.bytes());
    }

    /// Reads the structure whose bytes start at `at`.
    pub fn read(s: &[u8], at: usize) -> (r: Self)
        requires
            at + Self::SIZE <= s@.len(),
        ensures
            r == Self::decoded(s@.subrange(at as int, at + Self::SIZE)),
    {
        proof {
            let t = s@.subrange(at as int, at + 32);
            assert(s.len() <= usize::MAX);
            assert(t.subrange(0, 4) =~= s@.subrange(at as int, at + 4));
            assert(t.subrange(4, 8) =~= s@.subrange(at + 4, at + 8));
            assert(t.subrange(8, 16) =~= s@.subrange(at + 8, at + 16));
            assert(t.subrange(16, 24) =~= s@.subrange(at + 16, at + 24));
            assert(t.subrange(24, 32) =~= s@.subrange(at + 24, at + 32));
        }
        BinderFdArrayObject {
            hdr: BinderObjectHeader { type_: BinderType(get_u32(s, at)) },
            _pad: get_u32(s, at + 4),
            num_fds: get_u64(s, at + 8),
            parent: get_u64(s, at + 16),
            parent_offset: get_u64(s, at + 24),
        }
    }

    /// Decoding the bytes of the structure gives it back.
    pub proof fn decode_encoded(self)
        ensures
            self.bytes().len() == Self::SIZE,
            Self::decoded(self.bytes()) == self,
    {
        broadcast use ne32_facts, ne64_facts;

        let b = self.bytes();
        assert(b.subrange(0, 4) =~= ne32(self.hdr.type_.0));
        assert(b.subrange(4, 8) =~= ne32(self._pad));
        assert(b.subrange(8, 16) =~= ne64(self.num_fds));
        assert(b.subrange(16, 24) =~= ne64(self.parent));
        assert(b.subrange(24, 32) =~= ne64(self.parent_offset));
    }

    /// Encoding what a string of bytes stands for gives the string back.
    pub proof fn encode_decoded(s: Seq<u8>)
        requires
            s.len() == Self::SIZE,
        ensures
            Self::decoded(s).bytes() == s,
    {
        broadcast use ne32_facts, ne64_facts;

        u32_at_bytes(s, 0);
        u32_at_bytes(s, 4);
        u64_at_bytes(s, 8);
        u64_at_bytes(s, 16);
        u64_at_bytes(s, 24);
        assert(Self::decoded(s).bytes() =~= s);
    }
}

impl BinderTransactionData {
    /// How many bytes the structure takes.
    pub const SIZE: usize = 64;

    /// The bytes of the structure in memory.
    pub open spec fn bytes(self) -> Seq<u8> {
        ne64(self.target.word) + ne64(self.cookie) + ne32(self.code) + ne32(self.flags.0)
            + ne32(unsigned(self.sender_pid)) + ne32(self.sender_euid) + ne64(self.data_size)
            + ne64(self.offsets_size) + ne64(self.data.buffer) + ne64(self.data.offsets)
    }

    /// The structure that a string of bytes stands for.
    pub open spec fn decoded(s: Seq<u8>) -> Self {
        BinderTransactionData {
            target: TransactionTarget { word: u64_at(s, 0) },
            cookie: u64_at(s, 8),
            code: u32_at(s, 16),
            flags: TransactionFlags(u32_at(s, 20)),
            sender_pid: signed(u32_at(s, 24)),
            sender_euid: u32_at(s, 28),
            data_size: u64_at(s, 32),
            offsets_size: u64_at(s, 40),
            data: BinderTransactionDataPtrs { buffer: u64_at(s, 48), offsets: u64_at(s, 56) },
        }
    }

    /// Puts the bytes of the structure at the end of `out`.
    pub fn put(&self, out: &mut Vec<u8>)
        ensures
            final(out)@ == old(out)@ + self.bytes(),
    {
        put_u64(out, self.target.word);
        put_u64(out, self.cookie);
        put_u32(out, self.code);
        put_u32(out, self.flags.0);
        put_u32(out, to_unsigned(self.sender_pid));
        put_u32(out, self.sender_euid);
        put_u64(out, self.data_size);
        put_u64(out, self.offsets_size);
        put_u64(out, self.data.buffer);
        put_u64(out, self.data.offsets);
        assert(out@ =~= old(out)@ + self.bytes());
    }

    /// Reads the structure whose bytes start at `at`.
    pub fn read(s: &[u8], at: usize) -> (r: Self)
        requires
            at + Self::SIZE <= s@.len(),
        ensures
            r == Self::decoded(s@.subrange(at as int, at + Self::SIZE)),
    {
        proof {
            let t = s@.subrange(at as int, at + 64);
            assert(s.len() <= usize::MAX);
            assert(t.subrange(0, 8) =~= s@.subrange(at as int, at + 8));
            assert(t.subrange(8, 16) =~= s@.subrange(at + 8, at + 16));
            assert(t.subrange(16, 20) =~= s@.subrange(at + 16, at + 20));
            assert(t.subrange(20, 24) =~= s@.subrange(at + 20, at + 24));
            assert(t.subrange(24, 28) =~= s@.subrange(at + 24, at + 28));
            assert(t.subrange(28, 32) =~= s@.subrange(at + 28, at + 32));
            assert(t.subrange(32, 40) =~= s@.subrange(at + 32, at + 40));
            assert(t.subrange(40, 48) =~= s@.subrange(at + 40, at + 48));
            assert(t.subrange(48, 56) =~= s@.subrange(at + 48, at + 56));
            assert(t.subrange(56, 64) =~= s@.subrange(at + 56, at + 64));
        }
        BinderTransactionData {
            target: TransactionTarget { word: get_u64(s, at) },
            cookie: get_u64(s, at + 8),
            code: get_u32(s, at + 16),
            flags: TransactionFlags(get_u32(s, at + 20)),
            sender_pid: to_signed(get_u32(s, at + 24)),
            sender_euid: get_u32(s, at + 28),
            data_size: get_u64(s, at + 32),
            offsets_size: get_u64(s, at + 40),
            data: BinderTransactionDataPtrs { buffer: get_u64(s, at + 48), offsets: get_u64(s, at + 56) },
        }
    }

    /// Decoding the bytes of the structure gives it back.
    pub proof fn decode_encoded(self)
        ensures
            self.bytes().len() == Self::SIZE,
            Self::decoded(self.bytes()) == self,
    {
        broadcast use ne32_facts, ne64_facts;

        let b = self.bytes();
        assert(b.subrange(0, 8) =~= ne64(self.target.word));
        assert(b.subrange(8, 16) =~= ne64(self.cookie));
        assert(b.subrange(16, 20) =~= ne32(self.code));
        assert(b.subrange(20, 24) =~= ne32(self.flags.0));
        assert(b.subrange(24, 28) =~= ne32(unsigned(self.sender_pid)));
        twos_complement(self.sender_pid, 0);
        assert(b.subrange(28, 32) =~= ne32(self.sender_euid));
        assert(b.subrange(32, 40) =~= ne64(self.data_size));
        assert(b.subrange(40, 48) =~= ne64(self.offsets_size));
        assert(b.subrange(48, 56) =~= ne64(self.data.buffer));
        assert(b.subrange(56, 64) =~= ne64(self.data.offsets));
    }

    /// Encoding what a string of bytes stands for gives the string back.
    pub proof fn encode_decoded(s: Seq<u8>)
        requires
            s.len() == Self::SIZE,
        ensures
            Self::decoded(s).bytes() == s,
    {
        broadcast use ne32_facts, ne64_facts;

        u64_at_bytes(s, 0);
        u64_at_bytes(s, 8);
        u32_at_bytes(s, 16);
        u32_at_bytes(s, 20);
        u32_at_bytes(s, 24);
        twos_complement(0, u32_at(s, 24));
        u32_at_bytes(s, 28);
        u64_at_bytes(s, 32);
        u64_at_bytes(s, 40);
        u64_at_bytes(s, 48);
        u64_at_bytes(s, 56);
        assert(Self::decoded(s).bytes() =~= s);
    }
}

impl BinderPtrCookie {
    /// How many bytes the structure takes.
    pub const SIZE: usize = 16;

    /// The bytes of the structure in memory.
    pub open spec fn bytes(self) -> Seq<u8> {
        ne64(self.ptr) + ne64(self.cookie)
    }

    /// The structure that a string of bytes stands for.
    pub open spec fn decoded(s: Seq<u8>) -> Self {
        BinderPtrCookie {
            ptr: u64_at(s, 0),
            cookie: u64_at(s, 8),
        }
    }

    /// Puts the bytes of the structure at the end of `out`.
    pub fn put(&self, out: &mut Vec<u8>)
        ensures
            final(out)@ == old(out)@ + self.bytes(),
    {
        put_u64(out, self.ptr);
        put_u64(out, self.cookie);
        assert(out@ =~= old(out)@ + self.bytes());
    }

    /// Reads the structure whose bytes start at `at`.
    pub fn read(s: &[u8], at: usize) -> (r: Self)
        requires
            at + Self::SIZE <= s@.len(),
        ensures
            r == Self::decoded(s@.subrange(at as int, at + Self::SIZE)),
    {
        proof {
            let t = s@.subrange(at as int, at + 16);
            assert(s.len() <= usize::MAX);
            assert(t.subrange(0, 8) =~= s@.subrange(at as int, at + 8));
            assert(t.subrange(8, 16) =~= s@.subrange(at + 8, at + 16));
        }
        BinderPtrCookie {
            ptr: get_u64(s, at),
            cookie: get_u64(s, at + 8),
        }
    }

    /// Decoding the bytes of the structure gives it back.
    pub proof fn decode_encoded(self)
        ensures
            self.bytes().len() == Self::SIZE,
            Self::decoded(self.bytes()) == self,
    {
        broadcast use ne32_facts, ne64_facts;

        let b = self.bytes();
        assert(b.subrange(0, 8) =~= ne64(self.ptr));
        assert(b.subrange(8, 16) =~= ne64(self.cookie));
    }

    /// Encoding what a string of bytes stands for gives the string back.
    pub proof fn encode_decoded(s: Seq<u8>)
        requires
            s.len() == Self::SIZE,
        ensures
            Self::decoded(s).bytes() == s,
    {
        broadcast use ne32_facts, ne64_facts;

        u64_at_bytes(s, 0);
        u64_at_bytes(s, 8);
        assert(Self::decoded(s).bytes() =~= s);
    }
}

impl BinderHandleCookie {
    /// How many bytes the structure takes.
    pub const SIZE: usize = 16;

    /// The bytes of the structure in memory.
    pub open spec fn bytes(self) -> Seq<u8> {
        ne32(self.handle) + ne32(0) + ne64(self.cookie)
    }

    /// The structure that a string of bytes stands for.
    pub open spec fn decoded(s: Seq<u8>) -> Self {
        BinderHandleCookie {
            handle: u32_at(s, 0),
            cookie: u64_at(s, 8),
        }
    }

    /// Puts the bytes of the structure at the end of `out`.
    pub fn put(&self, out: &mut Vec<u8>)
        ensures
            final(out)@ == old(out)@ + self.bytes(),
    {
        put_u32(out, self.handle);
        put_u32(out, 0);
        put_u64(out, self.cookie);
        assert(out@ =~= old(out)@ + self.bytes());
    }

    /// Reads the structure whose bytes start at `at`.
    pub fn read(s: &[u8], at: usize) -> (r: Self)
        requires
            at + Self::SIZE <= s@.len(),
        ensures
            r == Self::decoded(s@.subrange(at as int, at + Self::SIZE)),
    {
        proof {
            let t = s@.subrange(at as int, at + 16);
            assert(s.len() <= usize::MAX);
            assert(t.subrange(0, 4) =~= s@.subrange(at as int, at + 4));
            assert(t.subrange(8, 16) =~= s@.subrange(at + 8, at + 16));
        }
        BinderHandleCookie {
            handle: get_u32(s, at),
            cookie: get_u64(s, at + 8),
        }
    }

    /// Decoding the bytes of the structure gives it back.
    pub proof fn decode_encoded(self)
        ensures
            self.bytes().len() == Self::SIZE,
            Self::decoded(self.bytes()) == self,
    {
        broadcast use ne32_facts, ne64_facts;

        let b = self.bytes();
        assert(b.subrange(0, 4) =~= ne32(self.handle));
        assert(b.subrange(4, 8) =~= ne32(0));
        assert(b.subrange(8, 16) =~= ne64(self.cookie));
    }
}

impl BinderFrozenStateInfo {
    /// How many bytes the structure takes.
    pub const SIZE: usize = 16;

    /// The bytes of the structure in memory.
    pub open spec fn bytes(self) -> Seq<u8> {
        ne64(self.cookie) + ne32(self.is_frozen) + ne32(self.reserved)
    }

    /// The structure that a string of bytes stands for.
    pub open spec fn decoded(s: Seq<u8>) -> Self {
        BinderFrozenStateInfo {
            cookie: u64_at(s, 0),
            is_frozen: u32_at(s, 8),
            reserved: u32_at(s, 12),
        }
    }

    /// Puts the bytes of the structure at the end of `out`.
    pub fn put(&self, out: &mut Vec<u8>)
        ensures
            final(out)@ == old(out)@ + self.bytes(),
    {
        put_u64(out, self.cookie);
        put_u32(out, self.is_frozen);
        put_u32(out, self.reserved);
        assert(out@ =~= old(out)@ + self.bytes());
    }

    /// Reads the structure whose bytes start at `at`.
    pub fn read(s: &[u8], at: usize) -> (r: Self)
        requires
            at + Self::SIZE <= s@.len(),
        ensures
            r == Self::decoded(s@.subrange(at as int, at + Self::SIZE)),
    {
        proof {
            let t = s@.subrange(at as int, at + 16);
            assert(s.len() <= usize::MAX);
            assert(t.subrange(0, 8) =~= s@.subrange(at as int, at + 8));
            assert(t.subrange(8, 12) =~= s@.subrange(at + 8, at + 12));
            assert(t.subrange(12, 16) =~= s@.subrange(at + 12, at + 16));
        }
        BinderFrozenStateInfo {
            cookie: get_u64(s, at),
            is_frozen: get_u32(s, at + 8),
            reserved: get_u32(s, at + 12),
        }
    }

    /// Decoding the bytes of the structure gives it back.
    pub proof fn decode_encoded(self)
        ensures
            self.bytes().len() == Self::SIZE,
            Self::decoded(self.bytes()) == self,
    {
        broadcast use ne32_facts, ne64_facts;

        let b = self.bytes();
        assert(b.subrange(0, 8) =~= ne64(self.cookie));
        assert(b.subrange(8, 12) =~= ne32(self.is_frozen));
        assert(b.subrange(12, 16) =~= ne32(self.reserved));
    }

    /// Encoding what a string of bytes stands for gives the string back.
    pub proof fn encode_decoded(s: Seq<u8>)
        requires
            s.len() == Self::SIZE,
        ensures
            Self::decoded(s).bytes() == s,
    {
        broadcast use ne32_facts, ne64_facts;

        u64_at_bytes(s, 0);
        u32_at_bytes(s, 8);
        u32_at_bytes(s, 12);
        assert(Self::decoded(s).bytes() =~= s);
    }
}

impl BinderWriteRead {
    /// How many bytes the structure takes.
    pub const SIZE: usize = 48;

    /// The bytes of the structure in memory.
    pub open spec fn bytes(self) -> Seq<u8> {
        ne64(self.write_size) + ne64(self.write_consumed) + ne64(self.write_buffer)
            + ne64(self.read_size) + ne64(self.read_consumed) + ne64(self.read_buffer)
    }

    /// The structure that a string of bytes stands for.
    pub open spec fn decoded(s: Seq<u8>) -> Self {
        BinderWriteRead {
            write_size: u64_at(s, 0),
            write_consumed: u64_at(s, 8),
            write_buffer: u64_at(s, 16),
            read_size: u64_at(s, 24),
            read_consumed: u64_at(s, 32),
            read_buffer: u64_at(s, 40),
        }
    }

    /// Puts the bytes of the structure at the end of `out`.
    pub fn put(&self, out: &mut Vec<u8>)
        ensures
            final(out)@ == old(out)@ + self.bytes(),
    {
        put_u64(out, self.write_size);
        put_u64(out, self.write_consumed);
        put_u64(out, self.write_buffer);
        put_u64(out, self.read_size);
        put_u64(out, self.read_consumed);
        put_u64(out, self.read_buffer);
        assert(out@ =~= old(out)@ + self.bytes());
    }

    /// Reads the structure whose bytes start at `at`.
    pub fn read(s: &[u8], at: usize) -> (r: Self)
        requires
            at + Self::SIZE <= s@.len(),
        ensures
            r == Self::decoded(s@.subrange(at as int, at + Self::SIZE)),
    {
        proof {
            let t = s@.subrange(at as int, at + 48);
            assert(s.len() <= usize::MAX);
            assert(t.subrange(0, 8) =~= s@.subrange(at as int, at + 8));
            assert(t.subrange(8, 16) =~= s@.subrange(at + 8, at + 16));
            assert(t.subrange(16, 24) =~= s@.subrange(at + 16, at + 24));
            assert(t.subrange(24, 32) =~= s@.subrange(at + 24, at + 32));
            assert(t.subrange(32, 40) =~= s@.subrange(at + 32, at + 40));
            assert(t.subrange(40, 48) =~= s@.subrange(at + 40, at + 48));
        }
        BinderWriteRead {
            write_size: get_u64(s, at),
            write_consumed: get_u64(s, at + 8),
            write_buffer: get_u64(s, at + 16),
            read_size: get_u64(s, at + 24),
            read_consumed: get_u64(s, at + 32),
            read_buffer: get_u64(s, at + 40),
        }
    }

    /// Decoding the bytes of the structure gives it back.
    pub proof fn decode_encoded(self)
        ensures
            self.bytes().len() == Self::SIZE,
            Self::decoded(self.bytes()) == self,
    {
        broadcast use ne32_facts, ne64_facts;

        let b = self.bytes();
        assert(b.subrange(0, 8) =~= ne64(self.write_size));
        assert(b.subrange(8, 16) =~= ne64(self.write_consumed));
        assert(b.subrange(16, 24) =~= ne64(self.write_buffer));
        assert(b.subrange(24, 32) =~= ne64(self.read_size));
        assert(b.subrange(32, 40) =~= ne64(self.read_consumed));
        assert(b.subrange(40, 48) =~= ne64(self.read_buffer));
    }

    /// Encoding what a string of bytes stands for gives the string back.
    pub proof fn encode_decoded(s: Seq<u8>)
        requires
            s.len() == Self::SIZE,
        ensures
            Self::decoded(s).bytes() == s,
    {
        broadcast use ne32_facts, ne64_facts;

        u64_at_bytes(s, 0);
        u64_at_bytes(s, 8);
        u64_at_bytes(s, 16);
        u64_at_bytes(s, 24);
        u64_at_bytes(s, 32);
        u64_at_bytes(s, 40);
        assert(Self::decoded(s).bytes() =~= s);
    }
}

impl BinderVersion {
    /// How many bytes the structure takes.
    pub const SIZE: usize = 4;

    /// The bytes of the structure in memory.
    pub open spec fn bytes(self) -> Seq<u8> {
        ne32(unsigned(self.protocol_version))
    }

    /// The structure that a string of bytes stands for.
    pub open spec fn decoded(s: Seq<u8>) -> Self {
        BinderVersion {
            protocol_version: signed(u32_at(s, 0)),
        }
    }

    /// Puts the bytes of the structure at the end of `out`.
    pub fn put(&self, out: &mut Vec<u8>)
        ensures
            final(out)@ == old(out)@ + self.bytes(),
    {
        put_u32(out, to_unsigned(self.protocol_version));
        assert(out@ =~= old(out)@ + self.bytes());
    }

    /// Reads the structure whose bytes start at `at`.
    pub fn read(s: &[u8], at: usize) -> (r: Self)
        requires
            at + Self::SIZE <= s@.len(),
        ensures
            r == Self::decoded(s@.subrange(at as int, at + Self::SIZE)),
    {
        proof {
            let t = s@.subrange(at as int, at + 4);
            assert(s.len() <= usize::MAX);
            assert(t.subrange(0, 4) =~= s@.subrange(at as int, at + 4));
        }
        BinderVersion {
            protocol_version: to_signed(get_u32(s, at)),
        }
    }

    /// Decoding the bytes of the structure gives it back.
    pub proof fn decode_encoded(self)
        ensures
            self.bytes().len() == Self::SIZE,
            Self::decoded(self.bytes()) == self,
    {
        broadcast use ne32_facts, ne64_facts;

        let b = self.bytes();
        assert(b.subrange(0, 4) =~= ne32(unsigned(self.protocol_version)));
        twos_complement(self.protocol_version, 0);
    }

    /// Encoding what a string of bytes stands for gives the string back.
    pub proof fn encode_decoded(s: Seq<u8>)
        requires
            s.len() == Self::SIZE,
        ensures
            Self::decoded(s).bytes() == s,
    {
        broadcast use ne32_facts, ne64_facts;

        u32_at_bytes(s, 0);
        twos_complement(0, u32_at(s, 0));
        assert(Self::decoded(s).bytes() =~= s);
    }
}

impl BinderExtendedError {
    /// How many bytes the structure takes.
    pub const SIZE: usize = 12;

    /// The bytes of the structure in memory.
    pub open spec fn bytes(self) -> Seq<u8> {
        ne32(self.id) + ne32(self.command) + ne32(unsigned(self.param))
    }

    /// The structure that a string of bytes stands for.
    pub open spec fn decoded(s: Seq<u8>) -> Self {
        BinderExtendedError {
            id: u32_at(s, 0),
            command: u32_at(s, 4),
            param: signed(u32_at(s, 8)),
        }
    }

    /// Puts the bytes of the structure at the end of `out`.
    pub fn put(&self, out: &mut Vec<u8>)
        ensures
            final(out)@ == old(out)@ + self.bytes(),
    {
        put_u32(out, self.id);
        put_u32(out, self.command);
        put_u32(out, to_unsigned(self.param));
        assert(out@ =~= old(out)@ + self.bytes());
    }

    /// Reads the structure whose bytes start at `at`.
    pub fn read(s: &[u8], at: usize) -> (r: Self)
        requires
            at + Self::SIZE <= s@.len(),
        ensures
            r == Self::decoded(s@.subrange(at as int, at + Self::SIZE)),
    {
        proof {
            let t = s@.subrange(at as int, at + 12);
            assert(s.len() <= usize::MAX);
            assert(t.subrange(0, 4) =~= s@.subrange(at as int, at + 4));
            assert(t.subrange(4, 8) =~= s@.subrange(at + 4, at + 8));
            assert(t.subrange(8, 12) =~= s@.subrange(at + 8, at + 12));
        }
        BinderExtendedError {
            id: get_u32(s, at),
            command: get_u32(s, at + 4),
            param: to_signed(get_u32(s, at + 8)),
        }
    }

    /// Decoding the bytes of the structure gives it back.
    pub proof fn decode_encoded(self)
        ensures
            self.bytes().len() == Self::SIZE,
            Self::decoded(self.bytes()) == self,
    {
        broadcast use ne32_facts, ne64_facts;

        let b = self.bytes();
        assert(b.subrange(0, 4) =~= ne32(self.id));
        assert(b.subrange(4, 8) =~= ne32(self.command));
        assert(b.subrange(8, 12) =~= ne32(unsigned(self.param)));
        twos_complement(self.param, 0);
    }

    /// Encoding what a string of bytes stands for gives the string back.
    pub proof fn encode_decoded(s: Seq<u8>)
        requires
            s.len() == Self::SIZE,
        ensures
            Self::decoded(s).bytes() == s,
    {
        broadcast use ne32_facts, ne64_facts;

        u32_at_bytes(s, 0);
        u32_at_bytes(s, 4);
        u32_at_bytes(s, 8);
        twos_complement(0, u32_at(s, 8));
        assert(Self::decoded(s).bytes() =~= s);
    }
}

impl BinderTransactionDataSecCtx {
    /// How many bytes the structure takes.
    pub const SIZE: usize = 72;

    /// The bytes of the structure in memory.
    pub open spec fn bytes(self) -> Seq<u8> {
        self.transaction_data.bytes() + ne64(self.sec_ctx)
    }

    /// The structure that a string of bytes stands for.
    pub open spec fn decoded(s: Seq<u8>) -> Self {
        BinderTransactionDataSecCtx {
            transaction_data: BinderTransactionData::decoded(s.subrange(0, 64)),
            sec_ctx: u64_at(s, 64),
        }
    }

    /// Reads the structure whose bytes start at `at`.
    pub fn read(s: &[u8], at: usize) -> (r: Self)
        requires
            at + Self::SIZE <= s@.len(),
        ensures
            r == Self::decoded(s@.subrange(at as int, at + Self::SIZE)),
    {
        proof {
            let t = s@.subrange(at as int, at + 72);
            assert(s.len() <= usize::MAX);
            assert(t.subrange(0, 64) =~= s@.subrange(at as int, at + 64));
            assert(t.subrange(64, 72) =~= s@.subrange(at + 64, at + 72));
        }
        BinderTransactionDataSecCtx {
            transaction_data: BinderTransactionData::read(s, at),
            sec_ctx: get_u64(s, at + 64),
        }
    }

    /// Decoding the bytes of the structure gives it back.
    pub proof fn decode_encoded(self)
        ensures
            self.bytes().len() == Self::SIZE,
            Self::decoded(self.bytes()) == self,
    {
        broadcast use ne64_facts;

        let b = self.bytes();
        self.transaction_data.decode_encoded();
        assert(b.subrange(0, 64) =~= self.transaction_data.bytes());
        assert(b.subrange(64, 72) =~= ne64(self.sec_ctx));
    }
}

impl BinderfsDevice {
    /// How many bytes the structure takes.
    pub const SIZE: usize = 264;

    /// The bytes of the structure in memory.
    pub open spec fn bytes(self) -> Seq<u8> {
        self.name@ + ne32(self.major) + ne32(self.minor)
    }

    /// Puts the bytes of the structure at the end of `out`.
    pub fn put(&self, out: &mut Vec<u8>)
        ensures
            final(out)@ == old(out)@ + self.bytes(),
    {
        put_bytes(out, self.name.as_slice());
        put_u32(out, self.major);
        put_u32(out, self.minor);
        assert(out@ =~= old(out)@ + self.bytes());
    }

    /// How long the bytes are.
    pub proof fn encoded_length(self)
        ensures
            self.bytes().len() == Self::SIZE,
    {
        broadcast use ne32_facts;

    }
}

impl FlatBinderObject {
    /// Reading the structure where it was put gives it back, and what was there before stays.
    pub proof fn put_and_read(&self, out: &mut Vec<u8>, s: &[u8], r: Self)
        requires
            call_ensures(FlatBinderObject::put, (self, out), ()),
            call_ensures(FlatBinderObject::read, (s, old(out)@.len() as usize), r),
            s@ == final(out)@,
            old(out)@.len() <= usize::MAX,
        ensures
            r == *self,
            final(out)@.len() == old(out)@.len() + 24,
            final(out)@.subrange(0, old(out)@.len() as int) == old(out)@,
    {
        let n = old(out)@.len() as int;
        self.decode_encoded();
        assert(s@.subrange(n, n + 24) =~= self.bytes());
        assert(final(out)@.subrange(0, n) =~= old(out)@);
    }

    /// Where each word of the structure lies in memory.
    pub proof fn words_in_memory(self)
        ensures
            self.bytes().len() == 24,
            u32_at(self.bytes(), 0) == self.hdr.type_.0,
            u32_at(self.bytes(), 4) == self.flags.0,
            u64_at(self.bytes(), 8) == self.data.word,
            u64_at(self.bytes(), 16) == self.cookie,
    {
        broadcast use ne32_facts, ne64_facts;

        let b = self.bytes();
        assert(b.subrange(0, 4) =~= ne32(self.hdr.type_.0));
        assert(b.subrange(4, 8) =~= ne32(self.flags.0));
        assert(b.subrange(8, 16) =~= ne64(self.data.word));
        assert(b.subrange(16, 24) =~= ne64(self.cookie));
    }
}

impl BinderFdObject {
    /// Reading the structure where it was put gives it back, and what was there before stays.
    pub proof fn put_and_read(&self, out: &mut Vec<u8>, s: &[u8], r: Self)
        requires
            call_ensures(BinderFdObject::put, (self, out), ()),
            call_ensures(BinderFdObject::read, (s, old(out)@.len() as usize), r),
            s@ == final(out)@,
            old(out)@.len() <= usize::MAX,
        ensures
            r == *self,
            final(out)@.len() == old(out)@.len() + 24,
            final(out)@.subrange(0, old(out)@.len() as int) == old(out)@,
    {
        let n = old(out)@.len() as int;
        self.decode_encoded();
        assert(s@.subrange(n, n + 24) =~= self.bytes());
        assert(final(out)@.subrange(0, n) =~= old(out)@);
    }

    /// Where each word of the structure lies in memory.
    pub proof fn words_in_memory(self)
        ensures
            self.bytes().len() == 24,
            u32_at(self.bytes(), 0) == self.hdr.type_.0,
            u32_at(self.bytes(), 4) == self.pad_flags,
            u64_at(self.bytes(), 8) == self.data.word,
            u64_at(self.bytes(), 16) == self.cookie,
    {
        broadcast use ne32_facts, ne64_facts;

        let b = self.bytes();
        assert(b.subrange(0, 4) =~= ne32(self.hdr.type_.0));
        assert(b.subrange(4, 8) =~= ne32(self.pad_flags));
        assert(b.subrange(8, 16) =~= ne64(self.data.word));
        assert(b.subrange(16, 24) =~= ne64(self.cookie));
    }
}

impl BinderBufferObject {
    /// Reading the structure where it was put gives it back, and what was there before stays.
    pub proof fn put_and_read(&self, out: &mut Vec<u8>, s: &[u8], r: Self)
        requires
            call_ensures(BinderBufferObject::put, (self, out), ()),
            call_ensures(BinderBufferObject::read, (s, old(out)@.len() as usize), r),
            s@ == final(out)@,
            old(out)@.len() <= usize::MAX,
        ensures
            r == *self,
            final(out)@.len() == old(out)@.len() + 40,
            final(out)@.subrange(0, old(out)@.len() as int) == old(out)@,
    {
        let n = old(out)@.len() as int;
        self.decode_encoded();
        assert(s@.subrange(n, n + 40) =~= self.bytes());
        assert(final(out)@.subrange(0, n) =~= old(out)@);
    }

    /// Where each word of the structure lies in memory.
    pub proof fn words_in_memory(self)
        ensures
            self.bytes().len() == 40,
            u32_at(self.bytes(), 0) == self.hdr.type_.0,
            u32_at(self.bytes(), 4) == self.flags.0,
            u64_at(self.bytes(), 8) == self.buffer,
            u64_at(self.bytes(), 16) == self.length,
            u64_at(self.bytes(), 24) == self.parent,
            u64_at(self.bytes(), 32) == self.parent_offset,
    {
        broadcast use ne32_facts, ne64_facts;

        let b = self.bytes();
        assert(b.subrange(0, 4) =~= ne32(self.hdr.type_.0));
        assert(b.subrange(4, 8) =~= ne32(self.flags.0));
        assert(b.subrange(8, 16) =~= ne64(self.buffer));
        assert(b.subrange(16, 24) =~= ne64(self.length));
        assert(b.subrange(24, 32) =~= ne64(self.parent));
        assert(b.subrange(32, 40) =~= ne64(self.parent_offset));
    }
}

impl BinderFdArrayObject {
    /// Reading the structure where it was put gives it back, and what was there before stays.
    pub proof fn put_and_read(&self, out: &mut Vec<u8>, s: &[u8], r: Self)
        requires
            call_ensures(BinderFdArrayObject::put, (self, out), ()),
            call_ensures(BinderFdArrayObject::read, (s, old(out)@.len() as usize), r),
            s@ == final(out)@,
            old(out)@.len() <= usize::MAX,
        ensures
            r == *self,
            final(out)@.len() == old(out)@.len() + 32,
            final(out)@.subrange(0, old(out)@.len() as int) == old(out)@,
    {
        let n = old(out)@.len() as int;
        self.decode_encoded();
        assert(s@.subrange(n, n + 32) =~= self.bytes());
        assert(final(out)@.subrange(0, n) =~= old(out)@);
    }

    /// Where each word of the structure lies in memory.
    pub proof fn words_in_memory(self)
        ensures
            self.bytes().len() == 32,
            u32_at(self.bytes(), 0) == self.hdr.type_.0,
            u32_at(self.bytes(), 4) == self._pad,
            u64_at(self.bytes(), 8) == self.num_fds,
            u64_at(self.bytes(), 16) == self.parent,
            u64_at(self.bytes(), 24) == self.parent_offset,
    {
        broadcast use ne32_facts, ne64_facts;

        let b = self.bytes();
        assert(b.subrange(0, 4) =~= ne32(self.hdr.type_.0));
        assert(b.subrange(4, 8) =~= ne32(self._pad));
        assert(b.subrange(8, 16) =~= ne64(self.num_fds));
        assert(b.subrange(16, 24) =~= ne64(self.parent));
        assert(b.subrange(24, 32) =~= ne64(self.parent_offset));
    }
}

impl BinderTransactionData {
    /// Reading the structure where it was put gives it back, and what was there before stays.
    pub proof fn put_and_read(&self, out: &mut Vec<u8>, s: &[u8], r: Self)
        requires
            call_ensures(BinderTransactionData::put, (self, out), ()),
            call_ensures(BinderTransactionData::read, (s, old(out)@.len() as usize), r),
            s@ == final(out)@,
            old(out)@.len() <= usize::MAX,
        ensures
            r == *self,
            final(out)@.len() == old(out)@.len() + 64,
            final(out)@.subrange(0, old(out)@.len() as int) == old(out)@,
    {
        let n = old(out)@.len() as int;
        self.decode_encoded();
        assert(s@.subrange(n, n + 64) =~= self.bytes());
        assert(final(out)@.subrange(0, n) =~= old(out)@);
    }

    /// Where each word of the structure lies in memory.
    pub proof fn words_in_memory(self)
        ensures
            self.bytes().len() == 64,
            u64_at(self.bytes(), 0) == self.target.word,
            u64_at(self.bytes(), 8) == self.cookie,
            u32_at(self.bytes(), 16) == self.code,
            u32_at(self.bytes(), 20) == self.flags.0,
            signed(u32_at(self.bytes(), 24)) == self.sender_pid,
            u32_at(self.bytes(), 28) == self.sender_euid,
            u64_at(self.bytes(), 32) == self.data_size,
            u64_at(self.bytes(), 40) == self.offsets_size,
            u64_at(self.bytes(), 48) == self.data.buffer,
            u64_at(self.bytes(), 56) == self.data.offsets,
    {
        broadcast use ne32_facts, ne64_facts;

        let b = self.bytes();
        assert(b.subrange(0, 8) =~= ne64(self.target.word));
        assert(b.subrange(8, 16) =~= ne64(self.cookie));
        assert(b.subrange(16, 20) =~= ne32(self.code));
        assert(b.subrange(20, 24) =~= ne32(self.flags.0));
        assert(b.subrange(24, 28) =~= ne32(unsigned(self.sender_pid)));
        twos_complement(self.sender_pid, 0);
        assert(b.subrange(28, 32) =~= ne32(self.sender_euid));
        assert(b.subrange(32, 40) =~= ne64(self.data_size));
        assert(b.subrange(40, 48) =~= ne64(self.offsets_size));
        assert(b.subrange(48, 56) =~= ne64(self.data.buffer));
        assert(b.subrange(56, 64) =~= ne64(self.data.offsets));
    }
}

impl BinderPtrCookie {
    /// Reading the structure where it was put gives it back, and what was there before stays.
    pub proof fn put_and_read(&self, out: &mut Vec<u8>, s: &[u8], r: Self)
        requires
            call_ensures(BinderPtrCookie::put, (self, out), ()),
            call_ensures(BinderPtrCookie::read, (s, old(out)@.len() as usize), r),
            s@ == final(out)@,
            old(out)@.len() <= usize::MAX,
        ensures
            r == *self,
            final(out)@.len() == old(out)@.len() + 16,
            final(out)@.subrange(0, old(out)@.len() as int) == old(out)@,
    {
        let n = old(out)@.len() as int;
        self.decode_encoded();
        assert(s@.subrange(n, n + 16) =~= self.bytes());
        assert(final(out)@.subrange(0, n) =~= old(out)@);
    }

    /// Where each word of the structure lies in memory.
    pub proof fn words_in_memory(self)
        ensures
            self.bytes().len() == 16,
            u64_at(self.bytes(), 0) == self.ptr,
            u64_at(self.bytes(), 8) == self.cookie,
    {
        broadcast use ne32_facts, ne64_facts;

        let b = self.bytes();
        assert(b.subrange(0, 8) =~= ne64(self.ptr));
        assert(b.subrange(8, 16) =~= ne64(self.cookie));
    }
}

impl BinderHandleCookie {
    /// Reading the structure where it was put gives it back, and what was there before stays.
    pub proof fn put_and_read(&self, out: &mut Vec<u8>, s: &[u8], r: Self)
        requires
            call_ensures(BinderHandleCookie::put, (self, out), ()),
            call_ensures(BinderHandleCookie::read, (s, old(out)@.len() as usize), r),
            s@ == final(out)@,
            old(out)@.len() <= usize::MAX,
        ensures
            r == *self,
            final(out)@.len() == old(out)@.len() + 16,
            final(out)@.subrange(0, old(out)@.len() as int) == old(out)@,
    {
        let n = old(out)@.len() as int;
        self.decode_encoded();
        assert(s@.subrange(n, n + 16) =~= self.bytes());
        assert(final(out)@.subrange(0, n) =~= old(out)@);
    }

    /// Where each word of the structure lies in memory.
    pub proof fn words_in_memory(self)
        ensures
            self.bytes().len() == 16,
            u32_at(self.bytes(), 0) == self.handle,
            u32_at(self.bytes(), 4) == 0,
            u64_at(self.bytes(), 8) == self.cookie,
    {
        broadcast use ne32_facts, ne64_facts;

        let b = self.bytes();
        assert(b.subrange(0, 4) =~= ne32(self.handle));
        assert(b.subrange(4, 8) =~= ne32(0));
        assert(b.subrange(8, 16) =~= ne64(self.cookie));
    }
}

impl BinderFrozenStateInfo {
    /// Reading the structure where it was put gives it back, and what was there before stays.
    pub proof fn put_and_read(&self, out: &mut Vec<u8>, s: &[u8], r: Self)
        requires
            call_ensures(BinderFrozenStateInfo::put, (self, out), ()),
            call_ensures(BinderFrozenStateInfo::read, (s, old(out)@.len() as usize), r),
            s@ == final(out)@,
            old(out)@.len() <= usize::MAX,
        ensures
            r == *self,
            final(out)@.len() == old(out)@.len() + 16,
            final(out)@.subrange(0, old(out)@.len() as int) == old(out)@,
    {
        let n = old(out)@.len() as int;
        self.decode_encoded();
        assert(s@.subrange(n, n + 16) =~= self.bytes());
        assert(final(out)@.subrange(0, n) =~= old(out)@);
    }

    /// Where each word of the structure lies in memory.
    pub proof fn words_in_memory(self)
        ensures
            self.bytes().len() == 16,
            u64_at(self.bytes(), 0) == self.cookie,
            u32_at(self.bytes(), 8) == self.is_frozen,
            u32_at(self.bytes(), 12) == self.reserved,
    {
        broadcast use ne32_facts, ne64_facts;

        let b = self.bytes();
        assert(b.subrange(0, 8) =~= ne64(self.cookie));
        assert(b.subrange(8, 12) =~= ne32(self.is_frozen));
        assert(b.subrange(12, 16) =~= ne32(self.reserved));
    }
}

impl BinderWriteRead {
    /// Reading the structure where it was put gives it back, and what was there before stays.
    pub proof fn put_and_read(&self, out: &mut Vec<u8>, s: &[u8], r: Self)
        requires
            call_ensures(BinderWriteRead::put, (self, out), ()),
            call_ensures(BinderWriteRead::read, (s, old(out)@.len() as usize), r),
            s@ == final(out)@,
            old(out)@.len() <= usize::MAX,
        ensures
            r == *self,
            final(out)@.len() == old(out)@.len() + 48,
            final(out)@.subrange(0, old(out)@.len() as int) == old(out)@,
    {
        let n = old(out)@.len() as int;
        self.decode_encoded();
        assert(s@.subrange(n, n + 48) =~= self.bytes());
        assert(final(out)@.subrange(0, n) =~= old(out)@);
    }

    /// Where each word of the structure lies in memory.
    pub proof fn words_in_memory(self)
        ensures
            self.bytes().len() == 48,
            u64_at(self.bytes(), 0) == self.write_size,
            u64_at(self.bytes(), 8) == self.write_consumed,
            u64_at(self.bytes(), 16) == self.write_buffer,
            u64_at(self.bytes(), 24) == self.read_size,
            u64_at(self.bytes(), 32) == self.read_consumed,
            u64_at(self.bytes(), 40) == self.read_buffer,
    {
        broadcast use ne32_facts, ne64_facts;

        let b = self.bytes();
        assert(b.subrange(0, 8) =~= ne64(self.write_size));
        assert(b.subrange(8, 16) =~= ne64(self.write_consumed));
        assert(b.subrange(16, 24) =~= ne64(self.write_buffer));
        assert(b.subrange(24, 32) =~= ne64(self.read_size));
        assert(b.subrange(32, 40) =~= ne64(self.read_consumed));
        assert(b.subrange(40, 48) =~= ne64(self.read_buffer));
    }
}

impl BinderVersion {
    /// Reading the structure where it was put gives it back, and what was there before stays.
    pub proof fn put_and_read(&self, out: &mut Vec<u8>, s: &[u8], r: Self)
        requires
            call_ensures(BinderVersion::put, (self, out), ()),
            call_ensures(BinderVersion::read, (s, old(out)@.len() as usize), r),
            s@ == final(out)@,
            old(out)@.len() <= usize::MAX,
        ensures
            r == *self,
            final(out)@.len() == old(out)@.len() + 4,
            final(out)@.subrange(0, old(out)@.len() as int) == old(out)@,
    {
        let n = old(out)@.len() as int;
        self.decode_encoded();
        assert(s@.subrange(n, n + 4) =~= self.bytes());
        assert(final(out)@.subrange(0, n) =~= old(out)@);
    }

    /// Where each word of the structure lies in memory.
    pub proof fn words_in_memory(self)
        ensures
            self.bytes().len() == 4,
            signed(u32_at(self.bytes(), 0)) == self.protocol_version,
    {
        broadcast use ne32_facts, ne64_facts;

        let b = self.bytes();
        assert(b.subrange(0, 4) =~= ne32(unsigned(self.protocol_version)));
        twos_complement(self.protocol_version, 0);
    }
}

impl BinderExtendedError {
    /// Reading the structure where it was put gives it back, and what was there before stays.
    pub proof fn put_and_read(&self, out: &mut Vec<u8>, s: &[u8], r: Self)
        requires
            call_ensures(BinderExtendedError::put, (self, out), ()),
            call_ensures(BinderExtendedError::read, (s, old(out)@.len() as usize), r),
            s@ == final(out)@,
            old(out)@.len() <= usize::MAX,
        ensures
            r == *self,
            final(out)@.len() == old(out)@.len() + 12,
            final(out)@.subrange(0, old(out)@.len() as int) == old(out)@,
    {
        let n = old(out)@.len() as int;
        self.decode_encoded();
        assert(s@.subrange(n, n + 12) =~= self.bytes());
        assert(final(out)@.subrange(0, n) =~= old(out)@);
    }

    /// Where each word of the structure lies in memory.
    pub proof fn words_in_memory(self)
        ensures
            self.bytes().len() == 12,
            u32_at(self.bytes(), 0) == self.id,
            u32_at(self.bytes(), 4) == self.command,
            signed(u32_at(self.bytes(), 8)) == self.param,
    {
        broadcast use ne32_facts, ne64_facts;

        let b = self.bytes();
        assert(b.subrange(0, 4) =~= ne32(self.id));
        assert(b.subrange(4, 8) =~= ne32(self.command));
        assert(b.subrange(8, 12) =~= ne32(unsigned(self.param)));
        twos_complement(self.param, 0);
    }
}

impl BinderTransactionDataSecCtx {
    /// Where each part of the structure lies in memory.
    pub proof fn words_in_memory(self)
        ensures
            self.bytes().len() == 72,
            self.bytes().subrange(0, 64) == self.transaction_data.bytes(),
            u64_at(self.bytes(), 64) == self.sec_ctx,
    {
        broadcast use ne64_facts;

        let b = self.bytes();
        self.transaction_data.words_in_memory();
        assert(b.subrange(0, 64) =~= self.transaction_data.bytes());
        assert(b.subrange(64, 72) =~= ne64(self.sec_ctx));
    }
}

impl BinderfsDevice {
    /// Where each part of the structure lies in memory.
    pub proof fn words_in_memory(self)
        ensures
            self.bytes().len() == 264,
            forall|i: int| 0 <= i < 256 ==> self.bytes()[i] == self.name@[i],
            u32_at(self.bytes(), 256) == self.major,
            u32_at(self.bytes(), 260) == self.minor,
    {
        broadcast use ne32_facts;

        let b = self.bytes();
        assert(b.subrange(256, 260) =~= ne32(self.major));
        assert(b.subrange(260, 264) =~= ne32(self.minor));
    }
}

} // verus!
