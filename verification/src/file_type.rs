//! The type of a directory entry, read from the mode that the environment
//! reports for it.
//!
//! The mode is to be taken without following a symbolic link at the end of
//! the path, so that a link is seen as a link.

use crate::error::Error;
use crate::error::os_failure;
use crate::path::PosixPath;
use crate::render::display_text;
use vstd::prelude::*;

verus! {

/// The bits of a mode that hold the type of the entry.
pub const TYPE_MASK: u32 = 0o170000;

/// The type bits of a named pipe.
pub const TYPE_FIFO: u32 = 0o010000;

/// The type bits of a character device.
pub const TYPE_CHARACTER_DEVICE: u32 = 0o020000;

/// The type bits of a directory.
pub const TYPE_DIRECTORY: u32 = 0o040000;

/// The type bits of a block device.
pub const TYPE_BLOCK_DEVICE: u32 = 0o060000;

/// The type bits of a regular file.
pub const TYPE_REGULAR: u32 = 0o100000;

/// The type bits of a symbolic link.
pub const TYPE_SYMLINK: u32 = 0o120000;

/// The type bits of a socket.
pub const TYPE_SOCKET: u32 = 0o140000;

/// What the environment reports of a directory entry.
#[derive(Clone, Copy, Debug, PartialEq, Eq)]
pub struct Metadata {
    /// Type and permission bits.
    pub mode: u32,
    /// Owning user.
    pub uid: u32,
    /// Owning group.
    pub gid: u32,
    /// Size in bytes.
    pub size: u64,
    /// The device that holds the entry.
    pub device: u64,
    /// The device that the entry stands for, where it is a device.
    pub device_type: u64,
    /// Last access, in seconds since the epoch.
    pub accessed: i64,
    /// Last change of the content, in seconds since the epoch.
    pub modified: i64,
    /// Last change of the metadata, in seconds since the epoch.
    pub changed: i64,
}

/// The type of a directory entry. The types that are replicated from their
/// metadata alone carry it.
#[derive(Clone, Copy, Debug, PartialEq, Eq)]
pub enum FileType {
    /// A regular file.
    Regular,
    /// A directory.
    Directory(Metadata),
    /// A symbolic link.
    Symlink,
    /// A named pipe.
    Fifo(Metadata),
    /// A socket.
    Socket,
    /// A character device.
    CharacterDevice(Metadata),
    /// A block device.
    BlockDevice(Metadata),
}

/// The type bits of a mode.
pub open spec fn type_bits(mode: u32) -> u32 {
    mode & TYPE_MASK
}

/// The type of the entry with the given metadata, or nothing where the type
/// bits are those of none of the seven types.
pub open spec fn classified(metadata: Metadata) -> Option<FileType> {
    let bits = type_bits(metadata.mode);
    if bits == TYPE_REGULAR {
        Some(FileType::Regular)
    } else if bits == TYPE_DIRECTORY {
        Some(FileType::Directory(metadata))
    } else if bits == TYPE_SYMLINK {
        Some(FileType::Symlink)
    } else if bits == TYPE_FIFO {
        Some(FileType::Fifo(metadata))
    } else if bits == TYPE_SOCKET {
        Some(FileType::Socket)
    } else if bits == TYPE_CHARACTER_DEVICE {
        Some(FileType::CharacterDevice(metadata))
    } else if bits == TYPE_BLOCK_DEVICE {
        Some(FileType::BlockDevice(metadata))
    } else {
        None
    }
}

/// The type of the entry with the given metadata, or nothing where the mode
/// names none of the seven types.
pub fn classify(metadata: Metadata) -> (file_type: Option<FileType>)
    ensures
        file_type == classified(metadata),
{
    let bits: u32 = metadata.mode & TYPE_MASK;
    if bits == TYPE_REGULAR {
        Some(FileType::Regular)
    } else if bits == TYPE_DIRECTORY {
        Some(FileType::Directory(metadata))
    } else if bits == TYPE_SYMLINK {
        Some(FileType::Symlink)
    } else if bits == TYPE_FIFO {
        Some(FileType::Fifo(metadata))
    } else if bits == TYPE_SOCKET {
        Some(FileType::Socket)
    } else if bits == TYPE_CHARACTER_DEVICE {
        Some(FileType::CharacterDevice(metadata))
    } else if bits == TYPE_BLOCK_DEVICE {
        Some(FileType::BlockDevice(metadata))
    } else {
        None
    }
}

/// The type of the entry at `path`, given what the environment reported for
/// it: its metadata, or the cause of the failure to read them. A failure
/// comes back with the path attached.
///
/// The environment never reports an entry of an eighth type, and the caller
/// has to hold to that.
pub fn file_type(path: &PosixPath, probed: Result<Metadata, String>) -> (result: Result<
    FileType,
    Error,
>)
    requires
        probed is Ok ==> classified(probed->Ok_0) is Some,
    ensures
        match probed {
            Ok(metadata) => result == Ok::<FileType, Error>(classified(metadata)->0),
            Err(cause) => result is Err && result->Err_0@ == os_failure(display_text(path@), cause@),
        },
{
    match probed {
        Ok(metadata) => Ok(classify(metadata).unwrap()),
        Err(cause) => Err(Error::os(path.display().as_str(), cause.as_str())),
    }
}

/// Each of the seven types is recognised by its own type bits and by no
/// others, and the metadata are carried by directories, named pipes and
/// devices and by nothing else.
pub proof fn lemma_classified_by_type_bits(metadata: Metadata)
    ensures
        type_bits(metadata.mode) == TYPE_REGULAR <==> classified(metadata) == Some(
            FileType::Regular,
        ),
        type_bits(metadata.mode) == TYPE_DIRECTORY <==> classified(metadata) == Some(
            FileType::Directory(metadata),
        ),
        type_bits(metadata.mode) == TYPE_SYMLINK <==> classified(metadata) == Some(
            FileType::Symlink,
        ),
        type_bits(metadata.mode) == TYPE_FIFO <==> classified(metadata) == Some(
            FileType::Fifo(metadata),
        ),
        type_bits(metadata.mode) == TYPE_SOCKET <==> classified(metadata) == Some(
            FileType::Socket,
        ),
        type_bits(metadata.mode) == TYPE_CHARACTER_DEVICE <==> classified(metadata) == Some(
            FileType::CharacterDevice(metadata),
        ),
        type_bits(metadata.mode) == TYPE_BLOCK_DEVICE <==> classified(metadata) == Some(
            FileType::BlockDevice(metadata),
        ),
{
}

} // verus!
