//! The on-disk structures of ext2, read from little-endian bytes.

use vstd::prelude::*;

verus! {

/// The little-endian 16-bit number at `off`.
pub open spec fn le_u16(b: Seq<u8>, off: int) -> u16 {
    (b[off] + 256 * b[off + 1]) as u16
}

/// The little-endian 32-bit number at `off`.
pub open spec fn le_u32(b: Seq<u8>, off: int) -> u32 {
    (b[off] + 256 * b[off + 1] + 65536 * b[off + 2] + 16777216 * b[off + 3]) as u32
}

pub fn read_u16(b: &Vec<u8>, off: usize) -> (r: u16)
    requires
        off + 2 <= b@.len(),
    ensures
        r == le_u16(b@, off as int),
{
    let _n = b.len();
    b[off] as u16 + 256 * (b[off + 1] as u16)
}

pub fn read_u32(b: &Vec<u8>, off: usize) -> (r: u32)
    requires
        off + 4 <= b@.len(),
    ensures
        r == le_u32(b@, off as int),
{
    let _n = b.len();
    b[off] as u32 + 256 * (b[off + 1] as u32) + 65536 * (b[off + 2] as u32) + 16777216 * (b[off
        + 3] as u32)
}

/// The magic number of an ext2 superblock.
pub const EXT2_MAGIC: u16 = 0xEF53;

/// Byte offset of the superblock on the disk.
pub const EXT2_SUPERBLOCK_OFFSET: u64 = 1024;

/// Bytes of the superblock that are read.
pub const SUPERBLOCK_SIZE: usize = 90;

/// Bytes of a block group descriptor.
pub const GROUP_DESC_SIZE: usize = 32;

/// Bytes of the part of an inode that is read.
pub const INODE_RECORD_SIZE: usize = 128;

/// Bytes of the fixed head of a directory entry.
pub const DIR_ENTRY_HEADER_SIZE: usize = 8;

/// Type bits of an inode's mode.
pub const EXT2_S_IFMT: u16 = 0xF000;

pub const EXT2_S_IFREG: u16 = 0x8000;

pub const EXT2_S_IFDIR: u16 = 0x4000;

pub const EXT2_S_IFLNK: u16 = 0xA000;

/// The fields of the superblock that the file system uses.
#[derive(Debug, Clone, Copy, PartialEq, Eq, Structural)]
pub struct Superblock {
    pub s_inodes_count: u32,
    pub s_blocks_count: u32,
    pub s_log_block_size: u32,
    pub s_blocks_per_group: u32,
    pub s_inodes_per_group: u32,
    pub s_magic: u16,
    pub s_rev_level: u32,
    pub s_inode_size: u16,
}

pub open spec fn spec_superblock(b: Seq<u8>, off: int) -> Superblock {
    Superblock {
        s_inodes_count: le_u32(b, off),
        s_blocks_count: le_u32(b, off + 4),
        s_log_block_size: le_u32(b, off + 24),
        s_blocks_per_group: le_u32(b, off + 32),
        s_inodes_per_group: le_u32(b, off + 40),
        s_magic: le_u16(b, off + 56),
        s_rev_level: le_u32(b, off + 76),
        s_inode_size: le_u16(b, off + 88),
    }
}

/// The superblock stored at `off`.
pub fn parse_superblock(b: &Vec<u8>, off: usize) -> (r: Superblock)
    requires
        off + SUPERBLOCK_SIZE <= b@.len(),
    ensures
        r == spec_superblock(b@, off as int),
{
    let _n = b.len();
    Superblock {
        s_inodes_count: read_u32(b, off),
        s_blocks_count: read_u32(b, off + 4),
        s_log_block_size: read_u32(b, off + 24),
        s_blocks_per_group: read_u32(b, off + 32),
        s_inodes_per_group: read_u32(b, off + 40),
        s_magic: read_u16(b, off + 56),
        s_rev_level: read_u32(b, off + 76),
        s_inode_size: read_u16(b, off + 88),
    }
}

/// A block group descriptor.
#[derive(Debug, Clone, Copy, PartialEq, Eq, Structural)]
pub struct GroupDesc {
    pub bg_block_bitmap: u32,
    pub bg_inode_bitmap: u32,
    pub bg_inode_table: u32,
    pub bg_free_blocks_count: u16,
    pub bg_free_inodes_count: u16,
    pub bg_used_dirs_count: u16,
}

pub open spec fn spec_group_desc(b: Seq<u8>, off: int) -> GroupDesc {
    GroupDesc {
        bg_block_bitmap: le_u32(b, off),
        bg_inode_bitmap: le_u32(b, off + 4),
        bg_inode_table: le_u32(b, off + 8),
        bg_free_blocks_count: le_u16(b, off + 12),
        bg_free_inodes_count: le_u16(b, off + 14),
        bg_used_dirs_count: le_u16(b, off + 16),
    }
}

/// The group descriptor stored at `off`.
pub fn parse_group_desc(b: &Vec<u8>, off: usize) -> (r: GroupDesc)
    requires
        off + GROUP_DESC_SIZE <= b@.len(),
    ensures
        r == spec_group_desc(b@, off as int),
{
    let _n = b.len();
    GroupDesc {
        bg_block_bitmap: read_u32(b, off),
        bg_inode_bitmap: read_u32(b, off + 4),
        bg_inode_table: read_u32(b, off + 8),
        bg_free_blocks_count: read_u16(b, off + 12),
        bg_free_inodes_count: read_u16(b, off + 14),
        bg_used_dirs_count: read_u16(b, off + 16),
    }
}

/// The fields of an inode that the file system uses.
#[derive(Debug, Clone, Copy)]
pub struct Inode {
    pub i_mode: u16,
    pub i_uid: u16,
    pub i_size: u32,
    pub i_atime: u32,
    pub i_ctime: u32,
    pub i_mtime: u32,
    pub i_gid: u16,
    pub i_links_count: u16,
    pub i_blocks: u32,
    pub i_block: [u32; 15],
}

/// `i` holds the inode stored at `off`.
pub open spec fn is_inode_at(b: Seq<u8>, off: int, i: Inode) -> bool {
    &&& i.i_mode == le_u16(b, off)
    &&& i.i_uid == le_u16(b, off + 2)
    &&& i.i_size == le_u32(b, off + 4)
    &&& i.i_atime == le_u32(b, off + 8)
    &&& i.i_ctime == le_u32(b, off + 12)
    &&& i.i_mtime == le_u32(b, off + 16)
    &&& i.i_gid == le_u16(b, off + 24)
    &&& i.i_links_count == le_u16(b, off + 26)
    &&& i.i_blocks == le_u32(b, off + 28)
    &&& forall|k: int| 0 <= k < 15 ==> #[trigger] i.i_block@[k] == le_u32(b, off + 40 + 4 * k)
}

/// The bytes at `off` describe one inode only.
pub proof fn lemma_inode_at_unique(b: Seq<u8>, off: int, x: Inode, y: Inode)
    requires
        is_inode_at(b, off, x),
        is_inode_at(b, off, y),
    ensures
        x == y,
{
    assert(x.i_block@ =~= y.i_block@);
    vstd::array::axiom_array_ext_equal(x.i_block, y.i_block);
}

/// The inode stored at `off`.
pub fn parse_inode(b: &Vec<u8>, off: usize) -> (r: Inode)
    requires
        off + INODE_RECORD_SIZE <= b@.len(),
    ensures
        is_inode_at(b@, off as int, r),
{
    let _n = b.len();
    let mut i_block: [u32; 15] = [0u32; 15];
    let mut k: usize = 0;
    while k < 15
        invariant
            k <= 15,
            off + INODE_RECORD_SIZE <= b@.len(),
            b@.len() <= usize::MAX,
            forall|j: int| 0 <= j < k ==> #[trigger] i_block@[j] == le_u32(b@, off + 40 + 4 * j),
        decreases 15 - k,
    {
        i_block[k] = read_u32(b, off + 40 + 4 * k);
        k = k + 1;
    }
    Inode {
        i_mode: read_u16(b, off),
        i_uid: read_u16(b, off + 2),
        i_size: read_u32(b, off + 4),
        i_atime: read_u32(b, off + 8),
        i_ctime: read_u32(b, off + 12),
        i_mtime: read_u32(b, off + 16),
        i_gid: read_u16(b, off + 24),
        i_links_count: read_u16(b, off + 26),
        i_blocks: read_u32(b, off + 28),
        i_block,
    }
}

/// The fixed head of a directory entry.
#[derive(Debug, Clone, Copy, PartialEq, Eq, Structural)]
pub struct DirEntryHeader {
    pub inode: u32,
    pub rec_len: u16,
    pub name_len: u8,
    pub file_type: u8,
}

pub open spec fn spec_dir_entry_header(b: Seq<u8>, off: int) -> DirEntryHeader {
    DirEntryHeader {
        inode: le_u32(b, off),
        rec_len: le_u16(b, off + 4),
        name_len: b[off + 6],
        file_type: b[off + 7],
    }
}

/// The directory entry head stored at `off`.
pub fn parse_dir_entry_header(b: &Vec<u8>, off: usize) -> (r: DirEntryHeader)
    requires
        off + DIR_ENTRY_HEADER_SIZE <= b@.len(),
    ensures
        r == spec_dir_entry_header(b@, off as int),
{
    let _n = b.len();
    DirEntryHeader {
        inode: read_u32(b, off),
        rec_len: read_u16(b, off + 4),
        name_len: b[off + 6],
        file_type: b[off + 7],
    }
}

} // verus!
