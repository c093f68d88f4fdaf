//! Names and choice of the device nodes that tests share.
use crate::fs::DEFAULT_BINDERFS_PATH;
use crate::text::{join_path, parse_number, push_decimal};
use vstd::prelude::*;
use vstd::string::StringExecFns;

verus! {

use crate::text::{
    decimal, decimals_are_told_apart, joined, number, paths_are_joined_by_one_slash,
};

pub const POOL_PREFIX: &'static str = "bb-test-";

pub const DEFAULT_POOL_SIZE: usize = 16;

/// The directory of the locks, where none is set.
pub const LOCK_DIRECTORY: &'static str = "binderbinder-test-pool";

/// How many nodes there are: as many as the variable says, if it is set to a number.
pub fn pool_size(variable: Option<&str>) -> (r: usize)
    ensures
        r == (match variable {
            Some(s) => match number(s@) {
                Some(n) => n,
                None => DEFAULT_POOL_SIZE,
            },
            None => DEFAULT_POOL_SIZE,
        }),
{
    match variable {
        Some(s) => match parse_number(s) {
            Some(n) => n,
            None => DEFAULT_POOL_SIZE,
        },
        None => DEFAULT_POOL_SIZE,
    }
}

/// Where the file system of the nodes is mounted: as the variable says, if it is set.
pub fn mount_path(variable: Option<&str>) -> (r: String)
    ensures
        r@ == (match variable {
            Some(s) => s@,
            None => DEFAULT_BINDERFS_PATH@,
        }),
{
    match variable {
        Some(s) => s.to_owned(),
        None => DEFAULT_BINDERFS_PATH.to_owned(),
    }
}

/// The name of a node.
pub open spec fn node_name(index: usize) -> Seq<char> {
    POOL_PREFIX@ + decimal(index as nat)
}

fn make_node_name(index: usize) -> (r: String)
    ensures
        r@ == node_name(index),
{
    let mut name: String = POOL_PREFIX.to_owned();
    push_decimal(&mut name, index as u64);
    name
}

/// The path of a node.
pub fn node_path(mount: &str, index: usize) -> (r: String)
    ensures
        r@ == joined(mount@, node_name(index)),
{
    let name: String = make_node_name(index);
    join_path(mount, name.as_str())
}

/// The directory of the locks: as the variable says, if it is set, and else one in the
/// directory for temporary files. Users cannot create files where the nodes are.
pub fn lock_dir(variable: Option<&str>, temporary: &str) -> (r: String)
    ensures
        r@ == (match variable {
            Some(s) => s@,
            None => joined(temporary@, LOCK_DIRECTORY@),
        }),
{
    match variable {
        Some(s) => s.to_owned(),
        None => join_path(temporary, LOCK_DIRECTORY),
    }
}

/// The path of the lock of a node.
pub fn lock_path(directory: &str, index: usize) -> (r: String)
    ensures
        r@ == joined(directory@, node_name(index) + ".lock"@),
{
    let mut name: String = make_node_name(index);
    name.append(".lock");
    join_path(directory, name.as_str())
}

/// What to do to get a node.
#[derive(Clone, Copy, Debug, PartialEq, Eq, Structural)]
pub enum PoolStep {
    /// Try to lock this node.
    Try(usize),
    /// Wait for the lock of this node.
    Wait(usize),
}

/// The node that is tried after `offset` others.
pub open spec fn probed(start: usize, offset: int, size: usize) -> int {
    (start + offset) % size as int
}

/// What to do to get a node after some were tried: each node is tried once, from a node on
/// that differs between processes, and after that the first one is waited for.
/// That two processes never hold one node at a time rests on the locks of the system.
pub fn acquire_step(start: usize, tried: usize, size: usize) -> (r: PoolStep)
    requires
        size > 0,
        start + tried <= usize::MAX,
    ensures
        r == (if tried < size {
            PoolStep::Try(probed(start, tried as int, size) as usize)
        } else {
            PoolStep::Wait(probed(start, 0, size) as usize)
        }),
{
    if tried < size {
        PoolStep::Try((start + tried) % size)
    } else {
        PoolStep::Wait(start % size)
    }
}

/// Before a node is waited for, every node has been tried, and none of them twice.
pub proof fn every_node_is_tried_once(start: usize, size: usize, node: usize)
    requires
        node < size,
    ensures
        exists|offset: int| 0 <= offset < size && #[trigger] probed(start, offset, size) == node,
        forall|a: int, b: int|
            0 <= a < size && 0 <= b < size && #[trigger] probed(start, a, size)
                == #[trigger] probed(start, b, size) ==> a == b,
{
    let n = size as int;
    let first = start as int % n;
    let offset = if node >= first {
        node - first
    } else {
        node - first + n
    };
    lemma_shift(start as int, offset, n);
    assert(probed(start, offset, size) == node);
    assert forall|a: int, b: int|
        0 <= a < size && 0 <= b < size && #[trigger] probed(start, a, size) == #[trigger] probed(
            start,
            b,
            size,
        ) implies a == b by {
        lemma_shift(start as int, a, n);
        lemma_shift(start as int, b, n);
    }
}

/// Where one gets by going less than once round.
proof fn lemma_shift(start: int, offset: int, n: int)
    requires
        0 <= offset < n,
        0 <= start,
    ensures
        (start + offset) % n == (if start % n + offset < n {
            start % n + offset
        } else {
            start % n + offset - n
        }),
{
    let q = start / n;
    let r = start % n;
    vstd::arithmetic::div_mod::lemma_fundamental_div_mod(start, n);
    vstd::arithmetic::div_mod::lemma_mod_bound(start, n);
    if r + offset < n {
        assert(start + offset == q * n + (r + offset)) by (nonlinear_arith)
            requires
                start == n * q + r,
        ;
        vstd::arithmetic::div_mod::lemma_fundamental_div_mod_converse(
            start + offset,
            n,
            q,
            r + offset,
        );
    } else {
        assert(start + offset == (q + 1) * n + (r + offset - n)) by (nonlinear_arith)
            requires
                start == n * q + r,
        ;
        vstd::arithmetic::div_mod::lemma_fundamental_div_mod_converse(
            start + offset,
            n,
            q + 1,
            r + offset - n,
        );
    }
}

/// One step further is the next number, or none after the last one.
pub(crate) proof fn lemma_next(at: int, n: int)
    requires
        0 <= at,
        1 < n,
    ensures
        (at + 1) % n == (if at % n + 1 < n {
            at % n + 1
        } else {
            0
        }),
{
    vstd::arithmetic::div_mod::lemma_mod_bound(at, n);
    lemma_shift(at, 1, n);
}

/// Different nodes have different names, which all start alike, and so have different paths and
/// different locks in one directory.
pub proof fn nodes_are_told_apart(a: usize, b: usize, directory: Seq<char>)
    ensures
        node_name(a).take(POOL_PREFIX@.len() as int) == POOL_PREFIX@,
        node_name(a) == node_name(b) ==> a == b,
        joined(directory, node_name(a)) == joined(directory, node_name(b)) ==> a == b,
        joined(directory, node_name(a) + ".lock"@) == joined(directory, node_name(b) + ".lock"@)
            ==> a == b,
{
    let (x, y) = (node_name(a), node_name(b));
    let n = POOL_PREFIX@.len() as int;
    assert(x.take(n) =~= POOL_PREFIX@);
    assert(x.skip(n) =~= decimal(a as nat));
    assert(y.skip(n) =~= decimal(b as nat));
    if x == y {
        decimals_are_told_apart(a as nat, b as nat);
    }
    if joined(directory, x) == joined(directory, y) {
        lemma_joined(directory, x, y);
    }
    let lock = ".lock"@;
    if joined(directory, x + lock) == joined(directory, y + lock) {
        lemma_joined(directory, x + lock, y + lock);
        assert((x + lock).take(x.len() as int) =~= x);
        assert((y + lock).take(y.len() as int) =~= y);
    }
}

proof fn lemma_joined(directory: Seq<char>, a: Seq<char>, b: Seq<char>)
    requires
        joined(directory, a) == joined(directory, b),
    ensures
        a == b,
{
    paths_are_joined_by_one_slash(directory, a);
    paths_are_joined_by_one_slash(directory, b);
}

/// How the pool is named, how large it is, and where its locks are, where nothing else is said.
pub proof fn pool_defaults()
    ensures
        POOL_PREFIX@ == "bb-test-"@,
        DEFAULT_POOL_SIZE == 16,
        LOCK_DIRECTORY@ == "binderbinder-test-pool"@,
{
}

} // verus!
