//! What the operations on numbers, texts, counts and requests do, said of what they are given and
//! of what they give.
use crate::binder_ref::BinderRef;
use crate::binder_thread::{DeviceKey, Ensured, ThreadBinderState};
use crate::command::DriverCommand;
use crate::error::{Error, WriteReadError};
use crate::fs::{create_device, is_mounted, mount_step, FsError, MountStep};
use crate::refcount::ObjectRefState;
use crate::sys::{
    b_pack_chars, opcode, BinderBufferFlags, BinderCommand, BinderExtendedError,
    BinderFdObjectData, BinderReturn, BinderType, BinderVersion, BinderWriteRead, BinderfsDevice,
    Direction, FlatBinderData, FlatBinderFlags, FlatBinderObject, FlatBinderObjectData, RawFd,
    SetContextMGR, SetMaxThreads, TransactionFlags, TransactionTarget,
};
use crate::test_pool::{
    acquire_step, lock_dir, lock_path, mount_path, node_path, pool_size, PoolStep,
};
use crate::text::{join_path, parse_number, push_decimal, push_signed};
use crate::wire::{
    get_first_word, get_le_u32, get_le_u64, get_u32, get_u64, to_sign_extended, to_signed,
    to_unsigned, widen,
};
use vstd::prelude::*;

verus! {

use crate::error::system_says;
use crate::sys::{code_tells_its_parts, lowest_flag_means_one_way, request_codes};
use crate::test_pool::{lemma_next, node_name, nodes_are_told_apart};
use crate::text::{
    decimal, decimal_in_digits, decimal_signed, is_digit, joined, number, number_reads_decimal,
    numbers_are_read_by_digits, occurs, paths_are_joined_by_one_slash, signed_decimal,
};
use crate::wire::{
    first_word, le_value, le_value_append, ne32, ne64, pow256, pow256_words, twos_complement,
    u32_at_bytes, u64_at_bytes, unsigned, widened_first,
};
use vstd::string::StringSliceAdditionalSpecFns;

/// A number is written as its decimal digits behind what is there, and a negative one with a
/// minus before them; read again it is the same number.
pub proof fn numbers_are_written_and_read(
    out: &mut String,
    n: u64,
    v: i32,
    text: &str,
    r: Option<usize>,
)
    requires
        call_ensures(parse_number, (text,), r),
    ensures
        call_ensures(push_decimal, (out, n), ()) ==> {
            let written = final(out)@.skip(old(out)@.len() as int);
            &&& final(out)@.take(old(out)@.len() as int) == old(out)@
            &&& n < 10 ==> written.len() == 1 && written[0] as nat == 48 + n
            &&& n >= 10 ==> written.last() as nat == 48 + n % 10 && written.len() > 1
            &&& n <= usize::MAX && text@ == written ==> r == Some(n as usize)
        },
        call_ensures(push_signed, (out, v), ()) ==> {
            let written = final(out)@.skip(old(out)@.len() as int);
            &&& final(out)@.take(old(out)@.len() as int) == old(out)@
            &&& v < 0 <==> written[0] == '-'
            &&& v >= 0 && v <= usize::MAX && text@ == written ==> r == Some(v as usize)
            &&& v < 0 && -v <= usize::MAX && text@ == written.skip(1) ==> r == Some((-v) as usize)
        },
        text@.len() == 0 ==> r is None,
        text@ == seq!['+'] ==> r is None,
{
    let before = old(out)@;
    let w = decimal(n as nat);
    let x = decimal_signed(v as int);
    assert((before + w).take(before.len() as int) =~= before);
    assert((before + w).skip(before.len() as int) =~= w);
    assert((before + x).take(before.len() as int) =~= before);
    assert((before + x).skip(before.len() as int) =~= x);
    decimal_in_digits(n as nat);
    if n >= 10 {
        decimal_in_digits((n / 10) as nat);
        assert(w.drop_last() == decimal((n / 10) as nat));
        lemma_has_a_digit((n / 10) as nat);
    }
    signed_decimal(v as int);
    if v >= 0 {
        decimal_in_digits(v as nat);
        lemma_has_a_digit(v as nat);
        assert(is_digit(x[0]));
        number_reads_decimal_nat(v as nat);
    } else {
        number_reads_decimal_nat((-v) as nat);
    }
    number_reads_decimal_nat(n as nat);
    numbers_are_read_by_digits(seq!['+'], '+');
    if text@.len() == 0 {
        assert(text@ =~= Seq::empty());
    }
}

proof fn number_reads_decimal_nat(n: nat)
    ensures
        n <= usize::MAX ==> number(decimal(n)) == Some(n as usize),
{
    if n <= usize::MAX {
        number_reads_decimal(n as usize);
    }
}

proof fn lemma_has_a_digit(n: nat)
    ensures
        decimal(n).len() > 0,
    decreases n,
{
}

/// Where the pool is and how large it is: as a variable says, and else as by default. A variable
/// that is no number does not count.
pub proof fn the_pool_is_where_it_is_said(
    size: Option<&str>,
    parsed: Option<usize>,
    n: usize,
    mount: Option<&str>,
    path: String,
    locks: Option<&str>,
    temporary: &str,
    directory: String,
    reference: String,
)
    requires
        call_ensures(pool_size, (size,), n),
        size matches Some(s) ==> call_ensures(parse_number, (s,), parsed),
        call_ensures(mount_path, (mount,), path),
        call_ensures(lock_dir, (locks, temporary), directory),
        call_ensures(join_path, (temporary, "binderbinder-test-pool"), reference),
    ensures
        size is None || parsed is None ==> n == 16,
        size is Some && parsed is Some ==> n == parsed->0,
        mount is None ==> path@ == "/dev/binderfs"@,
        mount matches Some(s) ==> path@ == s@,
        locks is None ==> directory@ == reference@,
        locks matches Some(s) ==> directory@ == s@,
{
}

/// The nodes of a pool lie in one directory and their locks in another, each under its own name,
/// and different nodes under different ones.
pub proof fn nodes_lie_under_their_names(
    directory: &str,
    a: usize,
    b: usize,
    node: String,
    other: String,
    lock: String,
    other_lock: String,
)
    requires
        call_ensures(node_path, (directory, a), node),
        call_ensures(node_path, (directory, b), other),
        call_ensures(lock_path, (directory, a), lock),
        call_ensures(lock_path, (directory, b), other_lock),
    ensures
        node@ == other@ ==> a == b,
        lock@ == other_lock@ ==> a == b,
        node@.take(directory@.len() as int) == directory@,
        lock@ == node@ + ".lock"@,
        node@ == joined(directory@, "bb-test-"@ + decimal(a as nat)),
{
    nodes_are_told_apart(a, b, directory@);
    paths_are_joined_by_one_slash(directory@, node_name(a));
    assert(lock@ =~= node@ + ".lock"@);
}

/// A path in a directory is the directory and the name with one slash between them.
pub proof fn paths_are_put_together(directory: &str, name: &str, r: String)
    requires
        call_ensures(join_path, (directory, name), r),
    ensures
        ({
            let n = r@.len() - name@.len();
            &&& r@.take(directory@.len() as int) == directory@
            &&& r@.skip(n) == name@
            &&& directory@.len() == 0 ==> n == 0
            &&& directory@.len() > 0 ==> r@[n - 1] == '/' && directory@.len() <= n
                <= directory@.len() + 1
            &&& directory@.len() > 0 && directory@.last() == '/' ==> n == directory@.len()
        }),
{
    paths_are_joined_by_one_slash(directory@, name@);
}

/// Nodes are tried one after the other from the start on, round and round but none twice, before
/// the first one is waited for.
pub proof fn nodes_are_tried_in_turn(
    start: usize,
    tried: usize,
    size: usize,
    r: PoolStep,
    next: PoolStep,
    first: PoolStep,
)
    requires
        size > 0,
        start + tried + 1 <= usize::MAX,
        call_ensures(acquire_step, (start, tried, size), r),
        call_ensures(acquire_step, (start, (tried + 1) as usize, size), next),
        call_ensures(acquire_step, (start, 0, size), first),
    ensures
        r is Try <==> tried < size,
        r matches PoolStep::Try(node) ==> node < size,
        first matches PoolStep::Try(node) && node == start as int % size as int,
        r matches PoolStep::Wait(node) ==> node == start as int % size as int,
        r matches PoolStep::Try(a) ==> next matches PoolStep::Try(b) ==> b == (if a + 1 < size {
            a + 1
        } else {
            0
        }),
{
    if tried + 1 < size {
        vstd::arithmetic::div_mod::lemma_mod_bound((start + tried) as int, size as int);
        lemma_next(start + tried, size as int);
    }
    vstd::arithmetic::div_mod::lemma_mod_bound((start + tried) as int, size as int);
}

/// What is next in mounting: nothing is mounted over what is no directory, and nothing is created
/// or mounted that is there already or was made just now.
pub proof fn mounting_goes_step_by_step(
    created: bool,
    mounted: bool,
    exists_: bool,
    is_directory: bool,
    is_mounted_: bool,
    r: MountStep,
)
    requires
        call_ensures(mount_step, (created, mounted, exists_, is_directory, is_mounted_), r),
    ensures
        r is CreateDirectory <==> !exists_ && !created,
        r is Refuse <==> (exists_ || created) && !is_directory,
        r matches MountStep::Refuse(e) ==> e is NotADirectory,
        r is Mount <==> (exists_ || created) && is_directory && !is_mounted_ && !mounted,
        r is Open <==> (exists_ || created) && is_directory && (is_mounted_ || mounted),
{
}

/// A device node is asked for by its name, with zeros behind it, unless the name leaves no room
/// for one.
pub proof fn device_nodes_are_asked_for(
    name: &[u8],
    i: int,
    r: core::result::Result<BinderfsDevice, FsError>,
)
    requires
        call_ensures(create_device, (name,), r),
    ensures
        r is Ok <==> name@.len() <= 255,
        r matches Err(e) ==> e is NameTooLong,
        r matches Ok(device) ==> device.major == 0 && device.minor == 0,
        r matches Ok(device) ==> 0 <= i < name@.len() ==> device.name@[i] == name@[i],
        r matches Ok(device) ==> name@.len() <= i < 256 ==> device.name@[i] == 0,
{
}

/// Whether the file system is mounted is seen by both marks, wherever they stand.
pub proof fn mounts_are_seen(output: &[u8], r: bool, source: bool, kind: bool)
    requires
        call_ensures(is_mounted, (output,), r),
        source <==> occurs("SOURCE=\"binder\"".spec_bytes(), output@),
        kind <==> occurs("FSTYPE=\"binder\"".spec_bytes(), output@),
    ensures
        r <==> source && kind,
{
}

/// The number of a handle is kept, and said as text.
pub proof fn handles_are_numbers(
    n: u32,
    r: BinderRef,
    back: u32,
    text: String,
    default: BinderRef,
)
    requires
        call_ensures(BinderRef::from_raw, (n,), r),
        call_ensures(BinderRef::as_u32, (&r,), back),
        call_ensures(BinderRef::to_text, (&r,), text),
        call_ensures(<BinderRef as Default>::default, (), default),
    ensures
        back == n,
        text@ == "BinderRef("@ + decimal(n as nat) + ")"@,
        default.0 == 0,
{
}

/// What an error says is what it is, and what it carries: a number in decimal, a text as it is,
/// and what the system has for its error number.
pub proof fn errors_are_told_in_words(e: &Error, os: &str, r: String)
    requires
        call_ensures(Error::message_with, (e, os), r),
    ensures
        match *e {
            Error::Io(s) => r@ == "IO error: "@ + s@,
            Error::Os(n) => r@ == "OS error: "@ + decimal_signed(n as int),
            Error::Binder(_) => r@ == "binder operation failed: "@ + os@,
            Error::InvalidHandle(n) => r@ == "invalid handle: "@ + decimal(n as nat),
            Error::HandleNotFound(n) => r@ == "handle not found: "@ + decimal(n as nat),
            Error::Transaction(s) => r@ == "transaction failed: "@ + s@,
            Error::Unknown(n) => r@ == "unknown error: "@ + decimal_signed(n as int),
            _ => true,
        },
{
}

/// The counts of an object move one at a time, and their sum, with a mark counted as one
/// reference, is what is published.
pub proof fn counts_are_moved_and_published(s: &mut ObjectRefState, published: u32)
    requires
        old(s).wf(),
        old(s).strong_count < u32::MAX,
        call_ensures(ObjectRefState::subscribe, (&*final(s),), published),
    ensures
        ({
            let (a, b) = (*old(s), *final(s));
            let sum = b.local_strong_count + b.remote_strong_count + (if b.new_in_remote {
                1int
            } else {
                0
            });
            &&& call_ensures(ObjectRefState::increase_local, (s,), ()) ==> {
                &&& b.local_strong_count == a.local_strong_count + 1
                &&& b.remote_strong_count == a.remote_strong_count
                &&& b.new_in_remote == a.new_in_remote
                &&& b.obj_id == a.obj_id
                &&& published == sum
            }
            &&& call_ensures(ObjectRefState::decrease_local, (s,), ()) && a.local_strong_count > 0
                ==> {
                &&& b.local_strong_count == a.local_strong_count - 1
                &&& b.remote_strong_count == a.remote_strong_count
                &&& b.new_in_remote == a.new_in_remote
                &&& b.obj_id == a.obj_id
                &&& published == sum
            }
            &&& call_ensures(ObjectRefState::increase_remote, (s,), ()) ==> {
                &&& b.local_strong_count == a.local_strong_count
                &&& b.remote_strong_count == a.remote_strong_count + 1
                &&& !b.new_in_remote
                &&& b.obj_id == a.obj_id
                &&& published == sum
            }
            &&& call_ensures(ObjectRefState::decrease_remote, (s,), ()) && a.remote_strong_count > 0
                ==> {
                &&& b.local_strong_count == a.local_strong_count
                &&& b.remote_strong_count == a.remote_strong_count - 1
                &&& b.new_in_remote == a.new_in_remote
                &&& b.obj_id == a.obj_id
                &&& published == sum
            }
            &&& call_ensures(ObjectRefState::mark_pending_remote, (s,), ()) ==> {
                &&& b.local_strong_count == a.local_strong_count
                &&& b.remote_strong_count == a.remote_strong_count
                &&& b.new_in_remote <==> a.remote_strong_count == 0
                &&& b.obj_id == a.obj_id
                &&& published == sum
            }
            &&& call_ensures(ObjectRefState::clear_pending_remote, (s,), ()) ==> {
                &&& b.local_strong_count == a.local_strong_count
                &&& b.remote_strong_count == a.remote_strong_count
                &&& !b.new_in_remote
                &&& b.obj_id == a.obj_id
                &&& published == sum
            }
        }),
{
}

/// Requests to the driver are told apart by their codes, which are those of the driver.
pub proof fn requests_have_their_codes(
    exchange: &BinderWriteRead,
    version: &BinderVersion,
    device: &BinderfsDevice,
    manager: &SetContextMGR,
    threads: &SetMaxThreads,
    extended: &BinderExtendedError,
    r: u32,
)
    ensures
        call_ensures(BinderWriteRead::opcode, (exchange,), r) ==> r == 0xc030_6201,
        call_ensures(BinderVersion::opcode, (version,), r) ==> r == 0xc004_6209,
        call_ensures(BinderfsDevice::opcode, (device,), r) ==> r == 0xc108_6201,
        call_ensures(SetContextMGR::opcode, (manager,), r) ==> r == 0x4018_620d,
        call_ensures(SetMaxThreads::opcode, (threads,), r) ==> r == 0x4004_6205,
        call_ensures(BinderExtendedError::opcode, (extended,), r) ==> r == 0xc00c_6211,
{
    request_codes();
}

/// A handle is the first half of the word that it is put into, and an object takes the whole
/// word; both are read back. So is an open file.
pub proof fn words_hold_what_was_put_there(
    handle: u32,
    binder: u64,
    fd: RawFd,
    data: FlatBinderObjectData,
    target: TransactionTarget,
    file: BinderFdObjectData,
    h: u32,
    b: u64,
    f: RawFd,
)
    ensures
        call_ensures(FlatBinderObjectData::from_handle, (handle,), data) && call_ensures(
            FlatBinderObjectData::handle,
            (&data,),
            h,
        ) ==> h == handle,
        call_ensures(FlatBinderObjectData::from_binder, (binder,), data) && call_ensures(
            FlatBinderObjectData::binder,
            (&data,),
            b,
        ) ==> b == binder,
        call_ensures(TransactionTarget::from_handle, (handle,), target) && call_ensures(
            TransactionTarget::handle,
            (&target,),
            h,
        ) ==> h == handle,
        call_ensures(TransactionTarget::from_binder, (binder,), target) && call_ensures(
            TransactionTarget::binder,
            (&target,),
            b,
        ) ==> b == binder,
        call_ensures(BinderFdObjectData::from_fd, (fd,), file) && call_ensures(
            BinderFdObjectData::fd,
            (&file,),
            f,
        ) ==> f == fd,
{
    widened_first(handle);
    widened_first(unsigned(fd));
    twos_complement(fd, 0);
}

/// What a type and the data of an object are is said truly, and so are flags and codes.
pub proof fn types_and_flags_are_said(
    type_: BinderType,
    port: bool,
    flat: &FlatBinderObject,
    data: FlatBinderData,
    flags: &TransactionFlags,
    bit: bool,
    v: u32,
    returned: BinderReturn,
    command: &BinderCommand,
    code: u32,
)
    requires
        call_ensures(BinderType::is_port, (type_,), port),
        call_ensures(FlatBinderObject::typed_data, (flat,), data),
        call_ensures(TransactionFlags::contains, (flags, 0x01), bit),
        call_ensures(BinderReturn::from_u32, (v,), returned),
        call_ensures(BinderCommand::as_u32, (command,), code),
    ensures
        port <==> type_.0 == 0x7362_2a85 || type_.0 == 0x7762_2a85 || type_.0 == 0x7368_2a85
            || type_.0 == 0x7768_2a85,
        match data {
            FlatBinderData::Binder(word) => (flat.hdr.type_.0 == 0x7362_2a85 || flat.hdr.type_.0
                == 0x7762_2a85) && word == flat.data.word,
            FlatBinderData::Handle(handle) => (flat.hdr.type_.0 == 0x7368_2a85
                || flat.hdr.type_.0 == 0x7768_2a85) && handle == first_word(flat.data.word),
            FlatBinderData::Invalid => flat.hdr.type_.0 != 0x7362_2a85 && flat.hdr.type_.0
                != 0x7762_2a85 && flat.hdr.type_.0 != 0x7368_2a85 && flat.hdr.type_.0
                != 0x7768_2a85,
        },
        bit <==> flags.0 % 2 == 1,
        returned.0 == v,
        code == command.0,
{
    lowest_flag_means_one_way(flags.0);
}

/// A code is put together from its parts, and an exchange from what is written and what there is
/// room for.
pub proof fn requests_are_put_together(
    direction: Direction,
    group: u8,
    number: u8,
    size: u32,
    code: u32,
    write_buffer: u64,
    write_size: u64,
    read_buffer: u64,
    read_size: u64,
    exchange: BinderWriteRead,
    c: (u8, u8, u8, u8),
    word: u32,
)
    requires
        size < 0x4000,
        call_ensures(opcode, (direction, group, number, size), code),
        call_ensures(
            BinderWriteRead::exchange,
            (write_buffer, write_size, read_buffer, read_size),
            exchange,
        ),
        call_ensures(b_pack_chars, (c.0, c.1, c.2, c.3), word),
    ensures
        code % 0x100 == number,
        code / 0x100 % 0x100 == group,
        code / 0x1_0000 % 0x4000 == size,
        code / 0x4000_0000 == (match direction {
            Direction::NoData => 0int,
            Direction::Write => 1,
            Direction::Read => 2,
            Direction::ReadWrite => 3,
        }),
        exchange.write_buffer == write_buffer && exchange.write_size == write_size,
        exchange.read_buffer == read_buffer && exchange.read_size == read_size,
        exchange.write_consumed == 0 && exchange.read_consumed == 0,
        word == 0x100_0000 * c.0 + 0x1_0000 * c.1 + 0x100 * c.2 + c.3,
{
    code_tells_its_parts(direction, group, number, size);
}

/// What a word is read from, and what it is turned into: the word at a place is made of the bytes
/// there, a word in front of another one is found again, and signs come and go without loss.
pub proof fn words_are_read_and_turned(
    s: &[u8],
    at: usize,
    x: u32,
    y: u64,
    w: u32,
    wide: u64,
    narrow: u32,
    v: i32,
    u: u32,
    back: i32,
    long: u64,
)
    requires
        at + 8 <= s@.len(),
        call_ensures(get_le_u32, (s, at), x),
        call_ensures(get_le_u64, (s, at), y),
        call_ensures(widen, (w,), wide),
        call_ensures(get_first_word, (wide,), narrow),
        call_ensures(to_unsigned, (v,), u),
        call_ensures(to_signed, (u,), back),
        call_ensures(to_sign_extended, (v,), long),
    ensures
        x == s@[at as int] + 0x100 * s@[at + 1] + 0x1_0000 * s@[at + 2] + 0x100_0000 * s@[at + 3],
        y % 0x1_0000_0000 == x,
        y / 0x1_0000_0000 == s@[at + 4] + 0x100 * s@[at + 5] + 0x1_0000 * s@[at + 6] + 0x100_0000
            * s@[at + 7],
        narrow == w,
        back == v,
        v >= 0 ==> u == v && long == v,
        v < 0 ==> u == v + 0x1_0000_0000 && long == v + 0x1_0000_0000_0000_0000,
{
    let i = at as int;
    lemma_four_bytes(s@, i);
    lemma_four_bytes(s@, i + 4);
    let (a, b) = (s@.subrange(i, i + 4), s@.subrange(i + 4, i + 8));
    assert(s@.subrange(i, i + 8) =~= a + b);
    pow256_words();
    le_value_append(a, b);
    let (p, q) = (pow256(a.len()), le_value(b));
    assert(p * q == 0x1_0000_0000 * q) by (nonlinear_arith)
        requires
            p == 0x1_0000_0000,
    ;
    widened_first(w);
    twos_complement(v, 0);
}

proof fn lemma_four_bytes(s: Seq<u8>, i: int)
    requires
        0 <= i,
        i + 4 <= s.len(),
    ensures
        le_value(s.subrange(i, i + 4)) == s[i] + 0x100 * s[i + 1] + 0x1_0000 * s[i + 2] + 0x100_0000
            * s[i + 3],
{
    let a = s.subrange(i, i + 4);
    let b = a.subrange(1, 4);
    let c = b.subrange(1, 3);
    let d = c.subrange(1, 2);
    assert(d.subrange(1, 1) =~= Seq::empty());
    assert(le_value(d.subrange(1, 1)) == 0);
    assert(le_value(d) == s[i + 3]);
    assert(le_value(c) == s[i + 2] + 256 * le_value(d));
    assert(le_value(b) == s[i + 1] + 256 * le_value(c));
    assert(le_value(a) == s[i] + 256 * le_value(b));
}

/// Words in memory are read as they were written, whatever the order of their bytes.
pub proof fn words_are_read_from_memory(s: &[u8], at: usize, x: u32, y: u64)
    requires
        at + 8 <= s@.len(),
        call_ensures(get_u32, (s, at), x),
        call_ensures(get_u64, (s, at), y),
    ensures
        s@.subrange(at as int, at + 4) == ne32(x),
        s@.subrange(at as int, at + 8) == ne64(y),
        first_word(y) == x,
{
    u32_at_bytes(s@, at as int);
    u64_at_bytes(s@, at as int);
    assert(ne64(y).subrange(0, 4) =~= s@.subrange(at as int, at + 4));
}

/// No flags are zero, flags are their bits, and what is asked for without an exchange is nothing.
pub proof fn nothing_is_zero(
    flat: FlatBinderFlags,
    flat_bits: u32,
    buffer: BinderBufferFlags,
    flags: &TransactionFlags,
    bits: u32,
    exchange: BinderWriteRead,
    device: BinderfsDevice,
    i: int,
)
    requires
        call_ensures(FlatBinderFlags::empty, (), flat),
        call_ensures(FlatBinderFlags::bits, (&flat,), flat_bits),
        call_ensures(BinderBufferFlags::empty, (), buffer),
        call_ensures(TransactionFlags::bits, (flags,), bits),
        call_ensures(<BinderWriteRead as Default>::default, (), exchange),
        call_ensures(<BinderfsDevice as Default>::default, (), device),
        0 <= i < 256,
    ensures
        flat_bits == 0 && buffer.0 == 0,
        bits == flags.0,
        exchange.write_size == 0 && exchange.write_consumed == 0 && exchange.write_buffer == 0,
        exchange.read_size == 0 && exchange.read_consumed == 0 && exchange.read_buffer == 0,
        device.name@[i] == 0 && device.major == 0 && device.minor == 0,
{
}

/// What the system has for an error number is said in the error that carries it, and in no other
/// one.
pub proof fn system_errors_are_told(
    e: &Error,
    message: String,
    w: &WriteReadError,
    other: String,
    os: &str,
    given: String,
)
    requires
        call_ensures(Error::message, (e,), message),
        call_ensures(WriteReadError::message, (w,), other),
        call_ensures(WriteReadError::message_with, (w, os), given),
    ensures
        *e matches Error::Binder(err) ==> exists|said: Seq<char>| #[trigger]
            system_says(err, said) && message@ == "binder operation failed: "@ + said,
        *w matches WriteReadError::WriteReadIoctlFailed(err) ==> exists|said: Seq<char>| #[trigger]
            system_says(err, said) && other@ == "WriteRead failed: "@ + said,
        *w is WriteReadIoctlFailed ==> given@ == "WriteRead failed: "@ + os@,
        !(*w is WriteReadIoctlFailed) ==> other@ == given@,
        *e matches Error::Os(n) ==> message@ == "OS error: "@ + decimal_signed(n as int),
        *e matches Error::Unknown(n) ==> message@ == "unknown error: "@ + decimal_signed(n as int),
        *e matches Error::InvalidHandle(n) ==> message@ == "invalid handle: "@ + decimal(n as nat),
        *e matches Error::HandleNotFound(n) ==> message@ == "handle not found: "@ + decimal(
            n as nat,
        ),
{
}

/// A service handler says its cookie, and is alive as long as someone owns the device. A thread
/// has for a device what was added for it.
pub proof fn handlers_and_threads_say_what_they_have(
    object: &crate::object::BinderObject,
    cookie: u64,
    owners: usize,
    alive: bool,
    state: &ThreadBinderState,
    key: DeviceKey,
    slot: Option<u64>,
    ensured: Ensured,
)
    requires
        call_ensures(crate::object::BinderObject::cookie, (object,), cookie),
        call_ensures(crate::object::BinderObject::is_alive, (object, owners), alive),
        call_ensures(ThreadBinderState::get, (state, key), slot),
        call_ensures(ThreadBinderState::ensure_device, (state, key), ensured),
    ensures
        cookie == object.cookie,
        alive <==> owners >= 1,
        slot matches Some(n) ==> ensured == Ensured::Ready(n) && n == state@[key.0],
        slot is None ==> ensured == Ensured::Register(DriverCommand::RegisterLooper),
{
}

} // verus!
