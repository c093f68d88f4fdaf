//! Words in byte strings.
//!
//! What passes between a process and the binder driver is a string of words as they lie in
//! memory, in the byte order of the machine. A few strings have little-endian words on every
//! machine. This module says what a word's bytes are, writes words at the end of a buffer and
//! reads them at a given place.
use byteorder::{LittleEndian, WriteBytesExt};
use vstd::prelude::*;

verus! {

/// The `n`-th power of 256: how many values `n` bytes can tell apart.
pub open spec fn pow256(n: nat) -> nat
    decreases n,
{
    if n == 0 {
        1
    } else {
        256 * pow256((n - 1) as nat)
    }
}

/// The `n` low bytes of `x`, least significant first.
pub open spec fn le_bytes(x: nat, n: nat) -> Seq<u8>
    decreases n,
{
    if n == 0 {
        Seq::empty()
    } else {
        seq![(x % 256) as u8] + le_bytes(x / 256, (n - 1) as nat)
    }
}

/// The number that a byte string spells, least significant byte first.
pub open spec fn le_value(s: Seq<u8>) -> nat
    decreases s.len(),
{
    if s.len() == 0 {
        0
    } else {
        s[0] as nat + 256 * le_value(s.subrange(1, s.len() as int))
    }
}

/// Turns bytes that stand least significant first into the order of the machine, and back.
pub open spec fn ordered(s: Seq<u8>) -> Seq<u8> {
    match vstd::endian::endianness() {
        vstd::endian::Endian::Little => s,
        vstd::endian::Endian::Big => s.reverse(),
    }
}

/// The number that a byte string spells in the order of the machine.
pub open spec fn ne_value(s: Seq<u8>) -> nat {
    le_value(ordered(s))
}

/// The 32-bit word that lies in memory at `i`.
pub open spec fn u32_at(s: Seq<u8>, i: int) -> u32 {
    ne_value(s.subrange(i, i + 4)) as u32
}

/// The 64-bit word that lies in memory at `i`.
pub open spec fn u64_at(s: Seq<u8>, i: int) -> u64 {
    ne_value(s.subrange(i, i + 8)) as u64
}

/// The little-endian 32-bit word at `i`.
pub open spec fn le_u32_at(s: Seq<u8>, i: int) -> u32 {
    le_value(s.subrange(i, i + 4)) as u32
}

/// The little-endian 64-bit word at `i`.
pub open spec fn le_u64_at(s: Seq<u8>, i: int) -> u64 {
    le_value(s.subrange(i, i + 8)) as u64
}

/// The signed number that a 32-bit word stands for in two's complement.
pub open spec fn signed(w: u32) -> i32 {
    if w < 0x8000_0000 {
        w as i32
    } else {
        (w - 0x1_0000_0000) as i32
    }
}

/// The 32-bit word that stands for a signed number in two's complement.
pub open spec fn unsigned(v: i32) -> u32 {
    if v >= 0 {
        v as u32
    } else {
        (v + 0x1_0000_0000) as u32
    }
}

/// The 64-bit word that stands for a signed 32-bit number after sign extension.
pub open spec fn sign_extended(v: i32) -> u64 {
    if v >= 0 {
        v as u64
    } else {
        (v + 0x1_0000_0000_0000_0000) as u64
    }
}

/// The 32-bit word in the first four bytes of a 64-bit word in memory.
pub open spec fn first_word(w: u64) -> u32 {
    u32_at(ne64(w), 0)
}

/// The 64-bit word whose first four bytes in memory are those of a 32-bit word, and whose
/// others are zero.
pub open spec fn widened(w: u32) -> u64 {
    u64_at(ne32(w) + ne32(0), 0)
}

/// A word has as many bytes as were asked for.
pub proof fn le_bytes_length(x: nat, n: nat)
    ensures
        le_bytes(x, n).len() == n,
    decreases n,
{
    if n > 0 {
        le_bytes_length(x / 256, (n - 1) as nat);
    }
}

/// Reading a word back gives the number that was written, if it fits.
pub proof fn read_after_write(x: nat, n: nat)
    requires
        x < pow256(n),
    ensures
        le_value(le_bytes(x, n)) == x,
    decreases n,
{
    if n > 0 {
        let m = (n - 1) as nat;
        assert(x / 256 < pow256(m)) by {
            assert(x < 256 * pow256(m));
        }
        read_after_write(x / 256, m);
        le_bytes_length(x / 256, m);
        let s = le_bytes(x, n);
        assert(s.subrange(1, s.len() as int) =~= le_bytes(x / 256, m));
    }
}

/// Writing the number that a byte string spells gives the byte string back.
pub proof fn write_after_read(s: Seq<u8>)
    ensures
        le_bytes(le_value(s), s.len()) == s,
    decreases s.len(),
{
    if s.len() > 0 {
        let rest = s.subrange(1, s.len() as int);
        write_after_read(rest);
        let x = le_value(s);
        assert(x % 256 == s[0] as nat);
        assert(x / 256 == le_value(rest));
        assert(le_bytes(x, s.len()) =~= seq![s[0]] + rest);
        assert(s =~= seq![s[0]] + rest);
    }
}

/// A string of `n` bytes spells a number below the `n`-th power of 256.
pub proof fn le_value_bound(s: Seq<u8>)
    ensures
        le_value(s) < pow256(s.len()),
    decreases s.len(),
{
    if s.len() > 0 {
        le_value_bound(s.subrange(1, s.len() as int));
    }
}

/// How many values four and eight bytes tell apart.
pub proof fn pow256_words()
    ensures
        pow256(4) == 0x1_0000_0000,
        pow256(8) == 0x1_0000_0000_0000_0000,
{
    reveal_with_fuel(pow256, 9);
}

/// The bytes of a 32-bit word, least significant first.
pub open spec fn le32(x: u32) -> Seq<u8> {
    le_bytes(x as nat, 4)
}

/// The bytes of a 64-bit word, least significant first.
pub open spec fn le64(x: u64) -> Seq<u8> {
    le_bytes(x as nat, 8)
}

/// What a 32-bit word becomes in memory.
pub open spec fn ne32(x: u32) -> Seq<u8> {
    ordered(le32(x))
}

/// What a 64-bit word becomes in memory.
pub open spec fn ne64(x: u64) -> Seq<u8> {
    ordered(le64(x))
}

/// Turning bytes round keeps their number, and doing it twice changes nothing.
pub proof fn ordered_twice(s: Seq<u8>)
    ensures
        ordered(s).len() == s.len(),
        ordered(ordered(s)) == s,
{
    assert(ordered(ordered(s)) =~= s);
}

/// A 32-bit word takes four bytes, and reading them anywhere gives it back.
pub broadcast proof fn le32_facts(x: u32)
    ensures
        #[trigger] le32(x).len() == 4,
        le_value(le32(x)) == x,
{
    pow256_words();
    le_bytes_length(x as nat, 4);
    read_after_write(x as nat, 4);
}

/// A 64-bit word takes eight bytes, and reading them anywhere gives it back.
pub broadcast proof fn le64_facts(x: u64)
    ensures
        #[trigger] le64(x).len() == 8,
        le_value(le64(x)) == x,
{
    pow256_words();
    le_bytes_length(x as nat, 8);
    read_after_write(x as nat, 8);
}

/// A 32-bit word takes four bytes of memory, and reading them anywhere gives it back.
pub broadcast proof fn ne32_facts(x: u32)
    ensures
        #[trigger] ne32(x).len() == 4,
        ne_value(ne32(x)) == x,
{
    le32_facts(x);
    ordered_twice(le32(x));
}

/// A 64-bit word takes eight bytes of memory, and reading them anywhere gives it back.
pub broadcast proof fn ne64_facts(x: u64)
    ensures
        #[trigger] ne64(x).len() == 8,
        ne_value(ne64(x)) == x,
{
    le64_facts(x);
    ordered_twice(le64(x));
}

/// The four bytes at a place are those of the 32-bit word that lies there.
pub proof fn u32_at_bytes(s: Seq<u8>, i: int)
    requires
        0 <= i,
        i + 4 <= s.len(),
    ensures
        ne32(u32_at(s, i)) == s.subrange(i, i + 4),
        u32_at(s, i) == ne_value(s.subrange(i, i + 4)),
{
    let t = s.subrange(i, i + 4);
    pow256_words();
    ordered_twice(t);
    le_value_bound(ordered(t));
    write_after_read(ordered(t));
}

/// The eight bytes at a place are those of the 64-bit word that lies there.
pub proof fn u64_at_bytes(s: Seq<u8>, i: int)
    requires
        0 <= i,
        i + 8 <= s.len(),
    ensures
        ne64(u64_at(s, i)) == s.subrange(i, i + 8),
        u64_at(s, i) == ne_value(s.subrange(i, i + 8)),
{
    let t = s.subrange(i, i + 8);
    pow256_words();
    ordered_twice(t);
    le_value_bound(ordered(t));
    write_after_read(ordered(t));
}

/// The first word of a widened word is the word that was widened.
pub broadcast proof fn widened_first(w: u32)
    ensures
        first_word(#[trigger] widened(w)) == w,
{
    broadcast use ne32_facts;

    let s = ne32(w) + ne32(0);
    u64_at_bytes(s, 0);
    assert(s.subrange(0, 8) =~= s);
    assert(s.subrange(0, 4) =~= ne32(w));
}

/// Two's complement loses nothing in either direction.
pub proof fn twos_complement(v: i32, w: u32)
    ensures
        signed(unsigned(v)) == v,
        unsigned(signed(w)) == w,
{
}

/// Calls `byteorder::WriteBytesExt::write_u32::<LittleEndian>` on the vector, which is an
/// in-memory writer: the four bytes of `x`, least significant first, are put at its end,
/// what it held before stays, and writing to a vector never fails.
#[verifier::external_body]
pub(crate) fn put_le_u32(out: &mut Vec<u8>, x: u32)
    ensures
        final(out)@ == old(out)@ + le32(x),
{
    out.write_u32::<LittleEndian>(x).unwrap();
}

/// Calls `byteorder::WriteBytesExt::write_u64::<LittleEndian>` on the vector, which is an
/// in-memory writer: the eight bytes of `x`, least significant first, are put at its end,
/// what it held before stays, and writing to a vector never fails.
#[verifier::external_body]
pub(crate) fn put_le_u64(out: &mut Vec<u8>, x: u64)
    ensures
        final(out)@ == old(out)@ + le64(x),
{
    out.write_u64::<LittleEndian>(x).unwrap();
}

/// Calls `u32::to_ne_bytes`, which gives the bytes of a word as they lie in memory, in the byte
/// order of the machine.
#[verifier::external_body]
fn u32_to_memory(x: u32) -> (r: [u8; 4])
    ensures
        r@ == ne32(x),
{
    x.to_ne_bytes()
}

/// Calls `u32::from_ne_bytes`, which gives the word whose bytes lie in memory like this, in the
/// byte order of the machine.
#[verifier::external_body]
fn u32_from_memory(bytes: [u8; 4]) -> (x: u32)
    ensures
        x == ne_value(bytes@),
{
    u32::from_ne_bytes(bytes)
}

/// Calls `u64::to_ne_bytes`, which gives the bytes of a word as they lie in memory, in the byte
/// order of the machine.
#[verifier::external_body]
fn u64_to_memory(x: u64) -> (r: [u8; 8])
    ensures
        r@ == ne64(x),
{
    x.to_ne_bytes()
}

/// Calls `u64::from_ne_bytes`, which gives the word whose bytes lie in memory like this, in the
/// byte order of the machine.
#[verifier::external_body]
fn u64_from_memory(bytes: [u8; 8]) -> (x: u64)
    ensures
        x == ne_value(bytes@),
{
    u64::from_ne_bytes(bytes)
}

/// Puts the bytes of `s` at the end of `out`.
pub(crate) fn put_bytes(out: &mut Vec<u8>, s: &[u8])
    ensures
        final(out)@ == old(out)@ + s@,
{
    out.extend_from_slice(s);
    assert(out@ =~= old(out)@ + s@);
}

/// Puts a 32-bit word at the end of `out` as it lies in memory.
pub(crate) fn put_u32(out: &mut Vec<u8>, x: u32)
    ensures
        final(out)@ == old(out)@ + ne32(x),
{
    let bytes: [u8; 4] = u32_to_memory(x);
    put_bytes(out, bytes.as_slice());
}

/// Puts a 64-bit word at the end of `out` as it lies in memory.
pub(crate) fn put_u64(out: &mut Vec<u8>, x: u64)
    ensures
        final(out)@ == old(out)@ + ne64(x),
{
    let bytes: [u8; 8] = u64_to_memory(x);
    put_bytes(out, bytes.as_slice());
}

/// Reads the 32-bit word that lies in memory at `at`.
pub fn get_u32(s: &[u8], at: usize) -> (x: u32)
    requires
        at + 4 <= s@.len(),
    ensures
        x == u32_at(s@, at as int),
{
    let bytes: [u8; 4] = [s[at], s[at + 1], s[at + 2], s[at + 3]];
    assert(bytes@ =~= s@.subrange(at as int, at + 4));
    u32_from_memory(bytes)
}

/// Reads the 64-bit word that lies in memory at `at`.
pub fn get_u64(s: &[u8], at: usize) -> (x: u64)
    requires
        at + 8 <= s@.len(),
    ensures
        x == u64_at(s@, at as int),
{
    let bytes: [u8; 8] = [
        s[at],
        s[at + 1],
        s[at + 2],
        s[at + 3],
        s[at + 4],
        s[at + 5],
        s[at + 6],
        s[at + 7],
    ];
    assert(bytes@ =~= s@.subrange(at as int, at + 8));
    u64_from_memory(bytes)
}

/// The 32-bit word in the first four bytes of a 64-bit word in memory.
pub fn get_first_word(w: u64) -> (r: u32)
    ensures
        r == first_word(w),
{
    broadcast use ne64_facts;

    let bytes: [u8; 8] = u64_to_memory(w);
    get_u32(bytes.as_slice(), 0)
}

/// The 64-bit word whose first four bytes in memory are those of a 32-bit word, and whose
/// others are zero.
pub fn widen(w: u32) -> (r: u64)
    ensures
        r == widened(w),
{
    broadcast use ne32_facts;

    let mut bytes: Vec<u8> = Vec::new();
    put_u32(&mut bytes, w);
    put_u32(&mut bytes, 0);
    assert(bytes@ =~= ne32(w) + ne32(0));
    get_u64(bytes.as_slice(), 0)
}

/// Reads the little-endian 32-bit word at `at`.
pub fn get_le_u32(s: &[u8], at: usize) -> (x: u32)
    requires
        at + 4 <= s@.len(),
    ensures
        x == le_u32_at(s@, at as int),
{
    let x: u32 = s[at] as u32 + 0x100 * (s[at + 1] as u32) + 0x1_0000 * (s[at + 2] as u32)
        + 0x100_0000 * (s[at + 3] as u32);
    proof {
        let t = s@.subrange(at as int, at + 4);
        reveal_with_fuel(le_value, 5);
        assert(t.subrange(1, 4).subrange(1, 3) =~= t.subrange(2, 4));
        assert(t.subrange(2, 4).subrange(1, 2) =~= t.subrange(3, 4));
        assert(le_value(t) == x);
    }
    x
}

/// Reads the little-endian 64-bit word at `at`.
pub fn get_le_u64(s: &[u8], at: usize) -> (x: u64)
    requires
        at + 8 <= s@.len(),
    ensures
        x == le_u64_at(s@, at as int),
{
    let low: u32 = get_le_u32(s, at);
    assert(s.len() <= usize::MAX);
    let high: u32 = get_le_u32(s, at + 4);
    let x: u64 = low as u64 + 0x1_0000_0000 * (high as u64);
    proof {
        let t = s@.subrange(at as int, at + 8);
        pow256_words();
        le_value_bound(s@.subrange(at as int, at + 4));
        le_value_bound(s@.subrange(at + 4, at + 8));
        le_value_append(t.subrange(0, 4), t.subrange(4, 8));
        assert(t =~= t.subrange(0, 4) + t.subrange(4, 8));
        assert(t.subrange(0, 4) =~= s@.subrange(at as int, at + 4));
        assert(t.subrange(4, 8) =~= s@.subrange(at + 4, at + 8));
    }
    x
}

/// The number that two strings spell one after the other.
pub proof fn le_value_append(a: Seq<u8>, b: Seq<u8>)
    ensures
        le_value(a + b) == le_value(a) + pow256(a.len()) * le_value(b),
    decreases a.len(),
{
    if a.len() == 0 {
        assert(a + b =~= b);
        assert(pow256(0) * le_value(b) == le_value(b)) by (nonlinear_arith)
            requires
                pow256(0) == 1,
        ;
    } else {
        let rest = a.subrange(1, a.len() as int);
        le_value_append(rest, b);
        assert((a + b).subrange(1, (a + b).len() as int) =~= rest + b);
        let (p, v) = (pow256(rest.len()), le_value(b));
        assert(256 * (p * v) == (256 * p) * v) by (nonlinear_arith);
        assert(pow256(a.len()) == 256 * p);
        assert(le_value(a + b) == a[0] + 256 * (le_value(rest) + p * v));
    }
}

/// The signed number that a 32-bit word stands for.
pub fn to_signed(w: u32) -> (v: i32)
    ensures
        v == signed(w),
{
    if w < 0x8000_0000 {
        w as i32
    } else {
        i32::MIN + ((w - 0x8000_0000) as i32)
    }
}

/// The 32-bit word that stands for a signed number.
pub fn to_unsigned(v: i32) -> (w: u32)
    ensures
        w == unsigned(v),
{
    if v >= 0 {
        v as u32
    } else {
        ((v as i64) + 0x1_0000_0000) as u32
    }
}

/// The 64-bit word that stands for a signed 32-bit number.
pub fn to_sign_extended(v: i32) -> (w: u64)
    ensures
        w == sign_extended(v),
{
    if v >= 0 {
        v as u64
    } else {
        ((v as i128) + 0x1_0000_0000_0000_0000) as u64
    }
}

/// Which byte of a 32-bit word stands where: least significant first.
pub proof fn bytes_of_a_word(x: u32)
    ensures
        le32(x) == seq![
            (x % 0x100) as u8,
            (x / 0x100 % 0x100) as u8,
            (x / 0x1_0000 % 0x100) as u8,
            (x / 0x100_0000) as u8,
        ],
{
    let (b, c, d) = (x as nat / 256, x as nat / 256 / 256, x as nat / 256 / 256 / 256);
    assert(le_bytes(d / 256, 0) =~= Seq::empty());
    assert(le_bytes(d, 1) =~= seq![(d % 256) as u8]);
    assert(le_bytes(c, 2) =~= seq![(c % 256) as u8, (d % 256) as u8]);
    assert(le_bytes(b, 3) =~= seq![(b % 256) as u8, (c % 256) as u8, (d % 256) as u8]);
    assert(le_bytes(x as nat, 4) =~= seq![
        (x % 256) as u8,
        (b % 256) as u8,
        (c % 256) as u8,
        (d % 256) as u8,
    ]);
}

/// A 64-bit word is its low half and then its high half.
pub proof fn halves_of_a_word(y: u64)
    ensures
        le64(y) == le32((y % 0x1_0000_0000) as u32) + le32((y / 0x1_0000_0000) as u32),
{
    let (a, b) = ((y % 0x1_0000_0000) as u32, (y / 0x1_0000_0000) as u32);
    let s = le32(a) + le32(b);
    le32_facts(a);
    le32_facts(b);
    pow256_words();
    le_value_append(le32(a), le32(b));
    let (p, v) = (pow256(le32(a).len()), le_value(le32(b)));
    assert(p * v == 0x1_0000_0000 * v) by (nonlinear_arith)
        requires
            p == 0x1_0000_0000,
    ;
    assert(le_value(s) == y);
    write_after_read(s);
}

/// A word in memory has the bytes of the word, in one order or the other, and in the same one
/// for every word.
pub proof fn one_order_for_all(x: u32, y: u64, i: int)
    ensures
        vstd::endian::endianness() is Little && 0 <= i < 4 ==> ne32(x)[i] == le32(x)[i],
        vstd::endian::endianness() is Little && 0 <= i < 8 ==> ne64(y)[i] == le64(y)[i],
        vstd::endian::endianness() is Big && 0 <= i < 4 ==> ne32(x)[i] == le32(x)[3 - i],
        vstd::endian::endianness() is Big && 0 <= i < 8 ==> ne64(y)[i] == le64(y)[7 - i],
{
    broadcast use le32_facts, le64_facts;

}

/// The first four bytes of a widened word are those of the word, and the others are zero.
pub proof fn widened_bytes(w: u32)
    ensures
        ne64(widened(w)).len() == 8,
        ne64(widened(w)).subrange(0, 4) == ne32(w),
        forall|i: int| 4 <= i < 8 ==> ne64(widened(w))[i] == 0,
{
    broadcast use ne32_facts, ne64_facts;

    let s = ne32(w) + ne32(0);
    u64_at_bytes(s, 0);
    assert(s.subrange(0, 8) =~= s);
    assert(s.subrange(0, 4) =~= ne32(w));
    bytes_of_a_word(0);
    assert forall|i: int| 4 <= i < 8 implies ne64(widened(w))[i] == 0 by {
        assert(s[i] == ne32(0)[i - 4]);
        one_order_for_all(0, 0, i - 4);
    }
}

/// Different words are different in memory, whole or widened.
pub proof fn words_are_told_apart(a: u32, b: u32, c: u64, d: u64)
    ensures
        ne32(a) == ne32(b) ==> a == b,
        ne64(c) == ne64(d) ==> c == d,
        widened(a) == widened(b) ==> a == b,
{
    ne32_facts(a);
    ne32_facts(b);
    ne64_facts(c);
    ne64_facts(d);
    widened_first(a);
    widened_first(b);
}

/// Signed and unsigned numbers of one word differ by a multiple of what a word can tell apart.
pub proof fn signs_are_congruent(v: i32, w: u32)
    ensures
        signed(w) == w || signed(w) == w - 0x1_0000_0000,
        unsigned(v) == v || unsigned(v) == v + 0x1_0000_0000,
        sign_extended(v) == v || sign_extended(v) == v + 0x1_0000_0000_0000_0000,
{
}

} // verus!
