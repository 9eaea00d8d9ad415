//! Types shared by the file systems.

use vstd::prelude::*;

verus! {

/// Why a file system operation failed.
#[derive(Debug, Clone, Copy, PartialEq, Eq, Structural)]
pub enum VfsError {
    NotFound,
    PermissionDenied,
    AlreadyExists,
    IsDirectory,
    NotDirectory,
    InvalidArgument,
    IoError,
    OutOfSpace,
    ReadOnlyFs,
    TooManyOpenFiles,
    FileTooBig,
    NotSupported,
}

/// Kind of a file.
#[derive(Debug, Clone, Copy, PartialEq, Eq, Structural)]
pub enum FileType {
    RegularFile,
    Directory,
    SymbolicLink,
}

/// Attributes of a file.
#[derive(Debug, Clone, Copy, PartialEq, Eq, Structural)]
pub struct FileAttr {
    pub file_type: FileType,
    pub size: u64,
    pub blocks: u64,
    pub atime: u64,
    pub mtime: u64,
    pub ctime: u64,
    pub mode: u16,
    pub uid: u32,
    pub gid: u32,
    pub nlink: u32,
}

/// An entry of a directory listing.
#[derive(Debug)]
pub struct DirEntry {
    pub name: String,
    pub inode: u64,
    pub file_type: FileType,
}

/// What a directory entry says: a name, an inode and a kind.
pub struct DirItem {
    pub name: Seq<char>,
    pub inode: u64,
    pub file_type: FileType,
}

impl View for DirEntry {
    type V = DirItem;

    open spec fn view(&self) -> DirItem {
        DirItem { name: self.name@, inode: self.inode, file_type: self.file_type }
    }
}

/// The views of a list of directory entries.
pub open spec fn dir_items(entries: Seq<DirEntry>) -> Seq<DirItem> {
    entries.map_values(|e: DirEntry| e@)
}

/// An open file: its inode, the position of the next read or write, and the
/// flags it was opened with.
#[derive(Debug, Clone, Copy, PartialEq, Eq, Structural)]
pub struct FileHandle {
    pub inode: u64,
    pub offset: u64,
    pub flags: u32,
}

impl FileHandle {
    /// A handle at the start of the file.
    pub fn new(inode: u64, flags: u32) -> (r: Self)
        ensures
            r == (FileHandle { inode, offset: 0, flags }),
    {
        FileHandle { inode, offset: 0, flags }
    }
}

} // verus!
