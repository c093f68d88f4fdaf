//! What can go wrong.
use crate::text::{push_decimal, push_signed};
use rustix::io::Errno;
use vstd::prelude::*;
use vstd::string::StringExecFns;

verus! {

use crate::text::{decimal, decimal_signed};

/// The type `rustix::io::Errno`, an error number of the system.
#[verifier::external_type_specification]
#[verifier::external_body]
pub struct ExErrno(Errno);

/// Calls `to_string` on a `rustix::io::Errno`: the text that the system has for the error
/// number. Nothing is claimed of it, since it depends on the machine.
#[verifier::external_body]
fn errno_text(e: &Errno) -> (r: String) {
    e.to_string()
}

/// Calls `rustix::io::Errno::raw_os_error` on `rustix::io::Errno::NOSPC`: the number of the
/// error that says that no space is left, which is 28 on Linux.
#[verifier::external_body]
pub(crate) fn no_space() -> (r: i32)
    ensures
        r == 28,
{
    Errno::NOSPC.raw_os_error()
}

/// Whether a text is one that the system has for an error number: asking for it gave it.
pub closed spec fn system_says(e: Errno, os: Seq<char>) -> bool {
    exists|s: String| s@ == os && #[trigger] call_ensures(errno_text, (&e,), s)
}

/// Why an operation failed.
#[derive(Debug)]
pub enum Error {
    /// Input or output failed, for the reason given.
    Io(String),
    Os(i32),
    /// The driver refused.
    Binder(Errno),
    InvalidHandle(u32),
    HandleNotFound(u32),
    InvalidTransaction,
    Transaction(String),
    ObjectNotFound,
    InvalidObjectType,
    NotConnected,
    AlreadyConnected,
    PermissionDenied,
    OutOfMemory,
    InvalidArgument,
    Shutdown,
    ChannelFull,
    DeadBinder,
    DeadReply,
    AlreadyExists,
    /// The target is frozen.
    FrozenReply,
    Unknown(i32),
}

pub type Result<T> = core::result::Result<T, Error>;

impl Error {
    /// What the error says, where `os` is what the system says of the error number in it, if
    /// there is one.
    pub open spec fn text(self, os: Seq<char>) -> Seq<char> {
        match self {
            Error::Io(s) => "IO error: "@ + s@,
            Error::Os(n) => "OS error: "@ + decimal_signed(n as int),
            Error::Binder(_) => "binder operation failed: "@ + os,
            Error::InvalidHandle(n) => "invalid handle: "@ + decimal(n as nat),
            Error::HandleNotFound(n) => "handle not found: "@ + decimal(n as nat),
            Error::InvalidTransaction => "invalid transaction data"@,
            Error::Transaction(s) => "transaction failed: "@ + s@,
            Error::ObjectNotFound => "object not found"@,
            Error::InvalidObjectType => "invalid object type"@,
            Error::NotConnected => "not connected to binder driver"@,
            Error::AlreadyConnected => "already connected"@,
            Error::PermissionDenied => "permission denied"@,
            Error::OutOfMemory => "out of memory"@,
            Error::InvalidArgument => "invalid argument"@,
            Error::Shutdown => "actor shutdown"@,
            Error::ChannelFull => "channel full"@,
            Error::DeadBinder => "dead binder"@,
            Error::DeadReply => "dead reply"@,
            Error::AlreadyExists => "already exists"@,
            Error::FrozenReply => "frozen reply"@,
            Error::Unknown(n) => "unknown error: "@ + decimal_signed(n as int),
        }
    }

    /// What the error says, given what the system says of the error number in it.
    pub fn message_with(&self, os: &str) -> (r: String)
        ensures
            r@ == self.text(os@),
    {
        match self {
            Error::Io(s) => {
                let mut out: String = "IO error: ".to_owned();
                out.append(s.as_str());
                out
            },
            Error::Os(n) => {
                let mut out: String = "OS error: ".to_owned();
                push_signed(&mut out, *n);
                out
            },
            Error::Binder(_) => {
                let mut out: String = "binder operation failed: ".to_owned();
                out.append(os);
                out
            },
            Error::InvalidHandle(n) => {
                let mut out: String = "invalid handle: ".to_owned();
                push_decimal(&mut out, *n as u64);
                out
            },
            Error::HandleNotFound(n) => {
                let mut out: String = "handle not found: ".to_owned();
                push_decimal(&mut out, *n as u64);
                out
            },
            Error::InvalidTransaction => "invalid transaction data".to_owned(),
            Error::Transaction(s) => {
                let mut out: String = "transaction failed: ".to_owned();
                out.append(s.as_str());
                out
            },
            Error::ObjectNotFound => "object not found".to_owned(),
            Error::InvalidObjectType => "invalid object type".to_owned(),
            Error::NotConnected => "not connected to binder driver".to_owned(),
            Error::AlreadyConnected => "already connected".to_owned(),
            Error::PermissionDenied => "permission denied".to_owned(),
            Error::OutOfMemory => "out of memory".to_owned(),
            Error::InvalidArgument => "invalid argument".to_owned(),
            Error::Shutdown => "actor shutdown".to_owned(),
            Error::ChannelFull => "channel full".to_owned(),
            Error::DeadBinder => "dead binder".to_owned(),
            Error::DeadReply => "dead reply".to_owned(),
            Error::AlreadyExists => "already exists".to_owned(),
            Error::FrozenReply => "frozen reply".to_owned(),
            Error::Unknown(n) => {
                let mut out: String = "unknown error: ".to_owned();
                push_signed(&mut out, *n);
                out
            },
        }
    }

    /// What the error says.
    pub fn message(&self) -> (r: String)
        ensures
            exists|os: Seq<char>|
                r@ == #[trigger] self.text(os) && (*self matches Error::Binder(e) ==> system_says(
                    e,
                    os,
                )),
    {
        let os: String = match self {
            Error::Binder(e) => errno_text(e),
            _ => String::new(),
        };
        self.message_with(os.as_str())
    }
}

/// Why an exchange with the driver ended without a reply.
#[derive(Debug, Clone, Copy, PartialEq, Eq)]
pub enum WriteReadError {
    /// A transaction came in for an object that is not registered.
    ObjectNotFound,
    DeadReply,
    FailedReply,
    FrozenReply,
    /// There is no room for a transaction that nobody waits for.
    AsyncBufferFull,
    /// The device is gone.
    NoDevice,
    /// The exchange itself failed.
    WriteReadIoctlFailed(Errno),
}

impl WriteReadError {
    /// What the error says, where `os` is what the system says of the error number in it, if
    /// there is one.
    pub open spec fn text(self, os: Seq<char>) -> Seq<char> {
        match self {
            WriteReadError::ObjectNotFound => "BinderObject for transaction target not found"@,
            WriteReadError::DeadReply => "Dead Reply"@,
            WriteReadError::FailedReply => "Reply Failed"@,
            WriteReadError::FrozenReply => "Frozen Reply"@,
            WriteReadError::AsyncBufferFull => "Async buffer full (ENOSPC)"@,
            WriteReadError::NoDevice => "No device"@,
            WriteReadError::WriteReadIoctlFailed(_) => "WriteRead failed: "@ + os,
        }
    }

    /// What the error says, given what the system says of the error number in it.
    pub fn message_with(&self, os: &str) -> (r: String)
        ensures
            r@ == self.text(os@),
    {
        match self {
            WriteReadError::ObjectNotFound => "BinderObject for transaction target not found".to_owned(),
            WriteReadError::DeadReply => "Dead Reply".to_owned(),
            WriteReadError::FailedReply => "Reply Failed".to_owned(),
            WriteReadError::FrozenReply => "Frozen Reply".to_owned(),
            WriteReadError::AsyncBufferFull => "Async buffer full (ENOSPC)".to_owned(),
            WriteReadError::NoDevice => "No device".to_owned(),
            WriteReadError::WriteReadIoctlFailed(_) => {
                let mut out: String = "WriteRead failed: ".to_owned();
                out.append(os);
                out
            },
        }
    }

    /// What the error says.
    pub fn message(&self) -> (r: String)
        ensures
            exists|os: Seq<char>|
                r@ == #[trigger] self.text(os) && (*self matches
                    WriteReadError::WriteReadIoctlFailed(e) ==> system_says(e, os)),
    {
        let os: String = match self {
            WriteReadError::WriteReadIoctlFailed(e) => errno_text(e),
            _ => String::new(),
        };
        self.message_with(os.as_str())
    }
}

/// An error that carries a number or a text says it, whole and at the end.
pub proof fn errors_say_what_they_carry(e: Error, w: WriteReadError, os: Seq<char>)
    ensures
        e matches Error::Io(s) ==> e.text(os) == "IO error: "@ + s@,
        e matches Error::Transaction(s) ==> e.text(os) == "transaction failed: "@ + s@,
        e matches Error::Os(n) ==> e.text(os) == "OS error: "@ + decimal_signed(n as int),
        e matches Error::Unknown(n) ==> e.text(os) == "unknown error: "@ + decimal_signed(n as int),
        e matches Error::InvalidHandle(n) ==> e.text(os) == "invalid handle: "@ + decimal(n as nat),
        e matches Error::HandleNotFound(n) ==> e.text(os) == "handle not found: "@ + decimal(
            n as nat,
        ),
        e is Binder ==> e.text(os) == "binder operation failed: "@ + os,
        w is WriteReadIoctlFailed ==> w.text(os) == "WriteRead failed: "@ + os,
{
}

} // verus!
