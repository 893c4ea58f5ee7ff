//! The interface a file system offers to the kernel: nodes, their metadata,
//! and the errors an operation can end in.

use std::sync::Arc;
use vstd::prelude::*;

verus! {

/// Why an operation on a node failed.
#[derive(Debug, Clone, Copy)]
pub enum VfsError {
    NotLinkFile,
    NotDir,
    NotFile,
    NotSupported,
    FileNotFound,
    AlreadyExists,
    InvalidData,
    DirectoryNotEmpty,
    InvalidInput,
    StorageFull,
    UnexpectedEof,
    WriteZero,
    Io,
}

/// What kind of thing a node is.
#[derive(Debug, Copy, Clone, PartialEq, Eq, Structural)]
pub enum FileType {
    File,
    Directory,
    Device,
    Socket,
    Link,
}

/// Where a seek starts from.
#[derive(Debug, Copy, Clone)]
pub enum SeekFrom {
    SET(usize),
    CURRENT(isize),
    END(isize),
}

#[derive(Debug, Copy, Clone)]
pub struct Metadata {
    pub inode: usize,
    pub file_type: FileType,
    pub size: usize,
    pub childrens: usize,
}

pub struct DirEntry {
    pub filename: String,
    pub len: usize,
    pub file_type: FileType,
}

pub const O_ACCMODE: usize = 0x0007;

pub const O_EXEC: usize = 1;

pub const O_RDONLY: usize = 2;

pub const O_RDWR: usize = 3;

pub const O_SEARCH: usize = 4;

pub const O_WRONLY: usize = 5;

pub const O_APPEND: usize = 0x000008;

pub const O_CREAT: usize = 0x000010;

pub const O_DIRECTORY: usize = 0x000020;

pub const O_EXCL: usize = 0x000040;

pub const O_NOCTTY: usize = 0x000080;

pub const O_NOFOLLOW: usize = 0x000100;

pub const O_TRUNC: usize = 0x000200;

pub const O_NONBLOCK: usize = 0x000400;

pub const O_DSYNC: usize = 0x000800;

pub const O_RSYNC: usize = 0x001000;

pub const O_SYNC: usize = 0x002000;

pub const O_CLOEXEC: usize = 0x004000;

pub const O_PATH: usize = 0x008000;

pub const O_LARGEFILE: usize = 0x010000;

pub const O_NOATIME: usize = 0x020000;

pub const O_ASYNC: usize = 0x040000;

pub const O_TMPFILE: usize = 0x080000;

pub const O_DIRECT: usize = 0x100000;

/// How a node is to be opened: the access mode in the low three bits, one
/// bit each for the rest.
#[derive(Debug, Copy, Clone, PartialEq, Eq, Structural)]
pub struct OpenFlags {
    pub bits: usize,
}

impl OpenFlags {
    /// The flags as a number.
    pub fn bits(&self) -> (bits: usize)
        ensures
            bits == self.bits,
    {
        self.bits
    }

    /// No flag at all.
    pub fn empty() -> (flags: OpenFlags)
        ensures
            flags.bits == 0,
    {
        OpenFlags { bits: 0 }
    }

    /// The flags that `bits` holds; bits that no flag uses are dropped.
    pub fn from_bits_truncate(bits: usize) -> (flags: OpenFlags)
        ensures
            flags.bits == bits & 0x1FFFFF,
    {
        OpenFlags { bits: bits & 0x1FFFFF }
    }

    /// Every bit of `other` is set in `self`.
    pub fn contains(&self, other: OpenFlags) -> (b: bool)
        ensures
            b == (self.bits & other.bits == other.bits),
    {
        self.bits & other.bits == other.bits
    }
}

pub const MAP_PRIVATE: usize = 0x1;

pub const MAP_SHARED: usize = 0x2;

pub const MAP_FIXED: usize = 0x4;

pub const MAP_ANONYOMUS: usize = 0x8;

/// How a mapping is to be made.
#[derive(Debug, Copy, Clone, PartialEq, Eq, Structural)]
pub struct MMapFlags {
    pub bits: usize,
}

impl MMapFlags {
    /// The flags as a number.
    pub fn bits(&self) -> (bits: usize)
        ensures
            bits == self.bits,
    {
        self.bits
    }

    /// The flags that `bits` holds; bits that no flag uses are dropped.
    pub fn from_bits_truncate(bits: usize) -> (flags: MMapFlags)
        ensures
            flags.bits == bits & 0xF,
    {
        MMapFlags { bits: bits & 0xF }
    }

    /// Every bit of `other` is set in `self`.
    pub fn contains(&self, other: MMapFlags) -> (b: bool)
        ensures
            b == (self.bits & other.bits == other.bits),
    {
        self.bits & other.bits == other.bits
    }
}

pub type VfsResult<T> = core::result::Result<T, VfsError>;

/// A mounted file system.
pub trait FileSystem: Send + Sync {
    /// The type of its nodes.
    type Root: INodeInterface;

    fn root_dir(&'static self) -> Arc<Self::Root>;

    fn name(&self) -> &str;
}

/// A node of a file system. Every operation has a default that refuses, so
/// a node implements only what it supports.
///
/// What is stated of each operation holds of its default alone: it returns
/// the error named and leaves the node, and the buffer it was handed, as
/// they were. A node that implements the operation is bound by none of it.
pub trait INodeInterface: Send + Sync {
    fn metadata(&mut self) -> (r: VfsResult<Metadata>)
        default_ensures
            r matches Err(e) && e == VfsError::NotSupported,
            &*final(self) == &*old(self),
    {
        Err(VfsError::NotSupported)
    }

    fn read(&mut self, _buffer: &mut [u8]) -> (r: VfsResult<usize>)
        default_ensures
            r matches Err(e) && e == VfsError::NotFile,
            &*final(self) == &*old(self),
            final(_buffer)@ == old(_buffer)@,
    {
        Err(VfsError::NotFile)
    }

    fn write(&mut self, _buffer: &[u8]) -> (r: VfsResult<usize>)
        default_ensures
            r matches Err(e) && e == VfsError::NotFile,
            &*final(self) == &*old(self),
    {
        Err(VfsError::NotFile)
    }

    fn seek(&self, _seek: SeekFrom) -> (r: VfsResult<usize>)
        default_ensures
            r matches Err(e) && e == VfsError::NotFile,
    {
        Err(VfsError::NotFile)
    }

    fn mkdir(&self, _name: &str) -> (r: VfsResult<Arc<Self>>)
        where
            Self: Sized,
        default_ensures
            r matches Err(e) && e == VfsError::NotDir,
    {
        Err(VfsError::NotDir)
    }

    fn rmdir(&self, _name: &str) -> (r: VfsResult<()>)
        default_ensures
            r matches Err(e) && e == VfsError::NotDir,
    {
        Err(VfsError::NotDir)
    }

    fn remove(&self, _name: &str) -> (r: VfsResult<()>)
        default_ensures
            r matches Err(e) && e == VfsError::NotDir,
    {
        Err(VfsError::NotDir)
    }

    fn touch(&self, _name: &str) -> (r: VfsResult<Arc<Self>>)
        where
            Self: Sized,
        default_ensures
            r matches Err(e) && e == VfsError::NotDir,
    {
        Err(VfsError::NotDir)
    }

    fn read_dir(&self) -> (r: VfsResult<Vec<DirEntry>>)
        default_ensures
            r matches Err(e) && e == VfsError::NotDir,
    {
        Err(VfsError::NotDir)
    }

    fn lookup(&self, _name: &str) -> (r: VfsResult<Arc<Self>>)
        where
            Self: Sized,
        default_ensures
            r matches Err(e) && e == VfsError::NotDir,
    {
        Err(VfsError::NotDir)
    }

    fn open(&self, _name: &str, _flags: OpenFlags) -> (r: VfsResult<Arc<Self>>)
        where
            Self: Sized,
        default_ensures
            r matches Err(e) && e == VfsError::NotDir,
    {
        Err(VfsError::NotDir)
    }

    fn ioctl(&self, _command: usize, _arg: usize) -> (r: VfsResult<usize>)
        default_ensures
            r matches Err(e) && e == VfsError::NotSupported,
    {
        Err(VfsError::NotSupported)
    }

    fn truncate(&mut self, _size: usize) -> (r: VfsResult<()>)
        default_ensures
            r matches Err(e) && e == VfsError::NotSupported,
            &*final(self) == &*old(self),
    {
        Err(VfsError::NotSupported)
    }

    fn fcntl(&self, _cmd: usize, _arg: usize) -> (r: VfsResult<()>)
        default_ensures
            r matches Err(e) && e == VfsError::NotSupported,
    {
        Err(VfsError::NotSupported)
    }

    fn flush(&mut self) -> (r: VfsResult<()>)
        default_ensures
            r matches Err(e) && e == VfsError::NotSupported,
            &*final(self) == &*old(self),
    {
        Err(VfsError::NotSupported)
    }

    fn resolve_link(&self) -> (r: VfsResult<String>)
        default_ensures
            r matches Err(e) && e == VfsError::NotSupported,
    {
        Err(VfsError::NotSupported)
    }

    fn link(&self, _name: &str, _src: Arc<Self>) -> (r: VfsResult<()>)
        where
            Self: Sized,
        default_ensures
            r matches Err(e) && e == VfsError::NotSupported,
    {
        Err(VfsError::NotSupported)
    }

    fn unlink(&self, _name: &str) -> (r: VfsResult<()>)
        default_ensures
            r matches Err(e) && e == VfsError::NotSupported,
    {
        Err(VfsError::NotSupported)
    }

    fn mmap(&self, _offset: usize, _size: usize, _flags: MMapFlags) -> (r: VfsResult<usize>)
        default_ensures
            r matches Err(e) && e == VfsError::NotSupported,
    {
        Err(VfsError::NotSupported)
    }
}

} // verus!
