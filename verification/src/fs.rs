//! The binder file system.
use crate::sys::BinderfsDevice;
use crate::text::find_bytes;
use vstd::prelude::*;

verus! {

use crate::text::occurs;
use vstd::string::StringSliceAdditionalSpecFns;

pub const BINDERFS_DEV_MAJOR: u64 = 0;

pub const BINDERFS_DEV_MINOR: u32 = 0;

pub const DEFAULT_BINDERFS_PATH: &'static str = "/dev/binderfs";

/// What `findmnt` says of a mount from the binder file system.
pub const BINDER_SOURCE: &'static str = "SOURCE=\"binder\"";

/// What `findmnt` says of a mount of the binder type.
pub const BINDER_TYPE: &'static str = "FSTYPE=\"binder\"";

/// Why the file system did not do what was asked.
#[derive(Clone, Copy, Debug, PartialEq, Eq, Structural)]
pub enum FsError {
    /// The path is taken by something else.
    NotADirectory,
    /// The name does not fit.
    NameTooLong,
}

impl FsError {
    /// What the error says.
    pub open spec fn text(self) -> Seq<char> {
        match self {
            FsError::NotADirectory => "binderfs path is not a directory"@,
            FsError::NameTooLong => "Device name too long"@,
        }
    }

    /// What the error says.
    pub fn message(&self) -> (r: String)
        ensures
            r@ == self.text(),
    {
        match self {
            FsError::NotADirectory => "binderfs path is not a directory".to_owned(),
            FsError::NameTooLong => "Device name too long".to_owned(),
        }
    }
}

/// Whether the output of `findmnt` shows a mounted binder file system.
pub fn is_mounted(output: &[u8]) -> (r: bool)
    ensures
        r == (occurs(BINDER_SOURCE.spec_bytes(), output@) && occurs(
            BINDER_TYPE.spec_bytes(),
            output@,
        )),
{
    find_bytes(output, BINDER_SOURCE.as_bytes()) && find_bytes(output, BINDER_TYPE.as_bytes())
}

/// What is next in mounting.
#[derive(Clone, Copy, Debug, PartialEq, Eq, Structural)]
pub enum MountStep {
    /// Create the directory.
    CreateDirectory,
    /// Give up.
    Refuse(FsError),
    /// Mount the file system there.
    Mount,
    /// Open the control node.
    Open,
}

/// What is next in mounting, by what was done already and by what is found at the path.
pub fn mount_step(
    created: bool,
    mounted: bool,
    exists: bool,
    is_directory: bool,
    is_mounted: bool,
) -> (r: MountStep)
    ensures
        r == (if !created && !exists {
            MountStep::CreateDirectory
        } else if !is_directory {
            MountStep::Refuse(FsError::NotADirectory)
        } else if !mounted && !is_mounted {
            MountStep::Mount
        } else {
            MountStep::Open
        }),
{
    if !created && !exists {
        return MountStep::CreateDirectory;
    }
    if !is_directory {
        return MountStep::Refuse(FsError::NotADirectory);
    }
    if !mounted && !is_mounted {
        return MountStep::Mount;
    }
    MountStep::Open
}

/// The request for a device node: its name, and zeros behind it.
pub fn create_device(name: &[u8]) -> (r: Result<BinderfsDevice, FsError>)
    ensures
        match r {
            Ok(device) => name@.len() <= 255 && device.name@ == name@ + Seq::new(
                (256 - name@.len()) as nat,
                |i: int| 0u8,
            ) && device.major == 0 && device.minor == 0,
            Err(e) => name@.len() > 255 && e == FsError::NameTooLong,
        },
{
    if name.len() > 255 {
        return Err(FsError::NameTooLong);
    }
    let device = BinderfsDevice::default();
    let mut bytes: [u8; 256] = device.name;
    let mut i: usize = 0;
    while i < name.len()
        invariant
            i <= name@.len() <= 255,
            bytes@ == name@.take(i as int) + Seq::new((256 - i) as nat, |j: int| 0u8),
        decreases name@.len() - i,
    {
        bytes[i] = name[i];
        i += 1;
        assert(bytes@ =~= name@.take(i as int) + Seq::new((256 - i) as nat, |j: int| 0u8));
    }
    assert(name@.take(i as int) =~= name@);
    Ok(BinderfsDevice { name: bytes, major: device.major, minor: device.minor })
}

/// The names and numbers of the binder file system.
pub proof fn binderfs_names()
    ensures
        DEFAULT_BINDERFS_PATH@ == "/dev/binderfs"@,
        BINDER_SOURCE@ == "SOURCE=\"binder\""@,
        BINDER_TYPE@ == "FSTYPE=\"binder\""@,
        BINDERFS_DEV_MAJOR == 0,
        BINDERFS_DEV_MINOR == 0,
{
}

} // verus!
